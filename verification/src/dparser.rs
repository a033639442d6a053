use vstd::prelude::*;

use crate::auto_close::spec_surround_closing_char;
use crate::text_buffer::str_to_chars;

verus! {

/// A shell construct that a character can open.
#[derive(Clone, Copy, Debug, PartialEq, Eq, Structural)]
pub enum Construct {
    /// `"..."`
    DoubleQuote,
    /// `'...'`
    SingleQuote,
    /// `` `...` ``
    Backtick,
    /// `( ... )`
    Subshell,
    /// `$( ... )`
    CommandSubstitution,
    /// `{ ... }`
    BraceGroup,
    /// `${ ... }`
    ParameterExpansion,
    /// `[ ... ]` in argument position
    Bracket,
}

/// What a character does in the shell syntax.
#[derive(Clone, Copy, Debug, PartialEq, Eq, Structural)]
pub enum Role {
    /// Literal text, blanks and operators.
    Plain,
    /// Opens the construct.
    Open(Construct),
    /// Closes the construct opened at the given character index.
    Close(usize),
}

/// One character of the input, with its syntactic role and whether the
/// editor inserted it automatically as a closing character.
#[derive(Clone, Copy, Debug, PartialEq, Eq, Structural)]
pub struct AnnotatedToken {
    pub ch: char,
    pub role: Role,
    pub auto_inserted: bool,
}

/// A construct that is open while scanning, with the index of its opener.
#[derive(Clone, Copy, Debug, PartialEq, Eq, Structural)]
pub struct Frame {
    pub construct: Construct,
    pub at: usize,
}

/// The scanner's state between two characters.
pub struct ScanState {
    /// The open constructs, innermost last.
    pub frames: Seq<Frame>,
    /// The next word would be a command name.
    pub command_position: bool,
    /// The previous character was an unquoted or double-quoted backslash.
    pub escaped: bool,
    /// The previous character was an unescaped `$`.
    pub after_dollar: bool,
}

/// The character that closes construct `k`.
pub open spec fn closer_of(k: Construct) -> char {
    match k {
        Construct::DoubleQuote => '"',
        Construct::SingleQuote => '\'',
        Construct::Backtick => '`',
        Construct::Subshell => ')',
        Construct::CommandSubstitution => ')',
        Construct::BraceGroup => '}',
        Construct::ParameterExpansion => '}',
        Construct::Bracket => ']',
    }
}

pub open spec fn initial_state() -> ScanState {
    ScanState { frames: Seq::empty(), command_position: true, escaped: false, after_dollar: false }
}

pub open spec fn top_is(st: ScanState, k: Construct) -> bool {
    st.frames.len() > 0 && st.frames.last().construct == k
}

pub open spec fn top_at(st: ScanState) -> usize {
    st.frames.last().at
}

/// Closes the innermost construct.
pub open spec fn close_top(st: ScanState) -> (Role, ScanState) {
    (
        Role::Close(top_at(st)),
        ScanState {
            frames: st.frames.drop_last(),
            command_position: false,
            escaped: false,
            after_dollar: false,
        },
    )
}

/// Opens construct `k` at index `i`.
pub open spec fn open_at(st: ScanState, k: Construct, i: usize, command_position: bool) -> (
    Role,
    ScanState,
) {
    (
        Role::Open(k),
        ScanState {
            frames: st.frames.push(Frame { construct: k, at: i }),
            command_position,
            escaped: false,
            after_dollar: false,
        },
    )
}

/// A plain character that leaves the frames alone.
pub open spec fn plain(st: ScanState, command_position: bool, escaped: bool, after_dollar: bool) -> (
    Role,
    ScanState,
) {
    (Role::Plain, ScanState { frames: st.frames, command_position, escaped, after_dollar })
}

/// Inside single quotes every character but `'` is literal.
pub open spec fn step_single_quoted(st: ScanState, c: char) -> (Role, ScanState) {
    if c == '\'' {
        close_top(st)
    } else {
        plain(st, st.command_position, false, false)
    }
}

/// Inside double quotes only `"`, `\`, `` ` ``, `$(` and `${` are special.
pub open spec fn step_double_quoted(st: ScanState, i: usize, c: char) -> (Role, ScanState) {
    if c == '\\' {
        plain(st, st.command_position, true, false)
    } else if c == '"' {
        close_top(st)
    } else if c == '`' {
        open_at(st, Construct::Backtick, i, true)
    } else if c == '(' && st.after_dollar {
        open_at(st, Construct::CommandSubstitution, i, true)
    } else if c == '{' && st.after_dollar {
        open_at(st, Construct::ParameterExpansion, i, false)
    } else {
        plain(st, st.command_position, false, c == '$')
    }
}

/// Characters that end a command, so that the next word is a command name.
pub open spec fn is_command_separator(c: char) -> bool {
    c == '|' || c == ';' || c == '&' || c == '\n'
}

pub open spec fn is_blank(c: char) -> bool {
    c == ' ' || c == '\t'
}

/// Unquoted characters.
pub open spec fn step_unquoted(st: ScanState, i: usize, c: char) -> (Role, ScanState) {
    if c == '\\' {
        plain(st, false, true, false)
    } else if c == '"' {
        open_at(st, Construct::DoubleQuote, i, false)
    } else if c == '\'' {
        open_at(st, Construct::SingleQuote, i, false)
    } else if c == '`' {
        if top_is(st, Construct::Backtick) {
            close_top(st)
        } else {
            open_at(st, Construct::Backtick, i, true)
        }
    } else if c == '(' {
        if st.after_dollar {
            open_at(st, Construct::CommandSubstitution, i, true)
        } else {
            open_at(st, Construct::Subshell, i, true)
        }
    } else if c == ')' {
        if top_is(st, Construct::Subshell) || top_is(st, Construct::CommandSubstitution) {
            close_top(st)
        } else {
            plain(st, false, false, false)
        }
    } else if c == '{' {
        if st.after_dollar {
            open_at(st, Construct::ParameterExpansion, i, false)
        } else {
            open_at(st, Construct::BraceGroup, i, true)
        }
    } else if c == '}' {
        if top_is(st, Construct::BraceGroup) || top_is(st, Construct::ParameterExpansion) {
            close_top(st)
        } else {
            plain(st, false, false, false)
        }
    } else if c == '[' {
        if st.command_position {
            plain(st, false, false, false)
        } else {
            open_at(st, Construct::Bracket, i, false)
        }
    } else if c == ']' {
        if top_is(st, Construct::Bracket) {
            close_top(st)
        } else {
            plain(st, false, false, false)
        }
    } else if c == '$' {
        plain(st, false, false, true)
    } else if is_command_separator(c) {
        plain(st, true, false, false)
    } else if is_blank(c) {
        plain(st, st.command_position, false, false)
    } else {
        plain(st, false, false, false)
    }
}

/// The role of character `c` at index `i`, and the state after it.
#[verifier::opaque]
pub open spec fn step(st: ScanState, i: usize, c: char) -> (Role, ScanState) {
    if top_is(st, Construct::SingleQuote) {
        step_single_quoted(st, c)
    } else if st.escaped {
        plain(
            st,
            if top_is(st, Construct::DoubleQuote) {
                st.command_position
            } else {
                false
            },
            false,
            false,
        )
    } else if top_is(st, Construct::DoubleQuote) {
        step_double_quoted(st, i, c)
    } else {
        step_unquoted(st, i, c)
    }
}

/// The roles of the characters of `text`, and the scanner's state after them.
pub open spec fn scan(text: Seq<char>) -> (Seq<Role>, ScanState)
    decreases text.len(),
{
    if text.len() == 0 {
        (Seq::empty(), initial_state())
    } else {
        let (roles, st) = scan(text.drop_last());
        let (role, st2) = step(st, (text.len() - 1) as usize, text.last());
        (roles.push(role), st2)
    }
}

/// The syntactic role of each character of `text`.
pub open spec fn syntax_roles(text: Seq<char>) -> Seq<Role> {
    scan(text).0
}

/// The characters that the tokens stand for.
pub open spec fn token_chars(toks: Seq<AnnotatedToken>) -> Seq<char> {
    toks.map_values(|t: AnnotatedToken| t.ch)
}

/// The roles of the tokens.
pub open spec fn token_roles(toks: Seq<AnnotatedToken>) -> Seq<Role> {
    toks.map_values(|t: AnnotatedToken| t.role)
}

/// Which tokens were inserted automatically.
pub open spec fn token_flags(toks: Seq<AnnotatedToken>) -> Seq<bool> {
    toks.map_values(|t: AnnotatedToken| t.auto_inserted)
}

/// No token is marked as inserted automatically.
pub open spec fn no_flags(n: nat) -> Seq<bool> {
    Seq::new(n, |i: int| false)
}

/// How the views of a token sequence change when a token is appended.
pub proof fn lemma_push_views(s: Seq<AnnotatedToken>, t: AnnotatedToken)
    ensures
        token_chars(s.push(t)) == token_chars(s).push(t.ch),
        token_roles(s.push(t)) == token_roles(s).push(t.role),
        token_flags(s.push(t)) == token_flags(s).push(t.auto_inserted),
{
    assert(token_chars(s.push(t)) =~= token_chars(s).push(t.ch));
    assert(token_roles(s.push(t)) =~= token_roles(s).push(t.role));
    assert(token_flags(s.push(t)) =~= token_flags(s).push(t.auto_inserted));
}

/// The role at index `i` describes the character there: an opener is one of the
/// pairing characters and names the construct whose closer pairs with it, and a
/// closer follows its opener and is that construct's closing character.
pub open spec fn role_describes(text: Seq<char>, roles: Seq<Role>, i: int) -> bool {
    &&& (roles[i] matches Role::Open(k) ==> spec_surround_closing_char(text[i]) == Some(
        closer_of(k),
    ))
    &&& (roles[i] matches Role::Close(j) ==> {
        &&& j < i
        &&& roles[j as int] matches Role::Open(k)
        &&& text[i] == closer_of(k)
    })
}

/// Every role describes its character.
pub open spec fn roles_describe(text: Seq<char>, roles: Seq<Role>) -> bool {
    &&& roles.len() == text.len()
    &&& forall|i: int| 0 <= i < roles.len() ==> #[trigger] role_describes(text, roles, i)
}

/// Every open frame points at the character that opened it.
pub open spec fn frames_point_at_openers(st: ScanState, roles: Seq<Role>) -> bool {
    forall|f: int|
        0 <= f < st.frames.len() ==> {
            &&& (#[trigger] st.frames[f]).at < roles.len()
            &&& roles[st.frames[f].at as int] == Role::Open(st.frames[f].construct)
        }
}

/// What one step does to the open frames.
pub proof fn lemma_step(st: ScanState, i: usize, c: char)
    ensures
        ({
            let (role, st2) = step(st, i, c);
            &&& role matches Role::Open(k) ==> {
                &&& spec_surround_closing_char(c) == Some(closer_of(k))
                &&& st2.frames == st.frames.push(Frame { construct: k, at: i })
                &&& !st2.escaped
            }
            &&& role matches Role::Close(j) ==> {
                &&& st.frames.len() > 0
                &&& j == top_at(st)
                &&& c == closer_of(st.frames.last().construct)
                &&& st2.frames == st.frames.drop_last()
            }
            &&& role is Plain ==> st2.frames == st.frames
        }),
{
    reveal(step);
}

/// A scan has one role per character.
pub proof fn lemma_scan_len(text: Seq<char>)
    ensures
        scan(text).0.len() == text.len(),
    decreases text.len(),
{
    if text.len() > 0 {
        lemma_scan_len(text.drop_last());
    }
}

/// Appending a role keeps the old roles describing their characters.
proof fn lemma_role_describes_extend(
    prev: Seq<char>,
    text: Seq<char>,
    roles: Seq<Role>,
    role: Role,
    k: int,
)
    requires
        text.len() > 0,
        prev == text.drop_last(),
        roles.len() == prev.len(),
        0 <= k < roles.len(),
        role_describes(prev, roles, k),
    ensures
        role_describes(text, roles.push(role), k),
{
    let roles2 = roles.push(role);
    assert(roles2[k] == roles[k]);
    assert(text[k] == prev[k]);
    if let Role::Close(j) = roles[k] {
        assert(roles2[j as int] == roles[j as int]);
    }
}

/// The role of a newly scanned character describes it.
proof fn lemma_role_describes_last(text: Seq<char>)
    requires
        0 < text.len() <= usize::MAX,
        roles_describe(text.drop_last(), scan(text.drop_last()).0),
        frames_point_at_openers(scan(text.drop_last()).1, scan(text.drop_last()).0),
    ensures
        role_describes(text, scan(text).0, text.len() - 1),
{
    let prev = text.drop_last();
    let (roles, st) = scan(prev);
    let i = (text.len() - 1) as usize;
    lemma_step(st, i, text.last());
    let (role, st2) = step(st, i, text.last());
    let roles2 = scan(text).0;
    assert(roles2 == roles.push(role));
    if let Role::Close(j) = role {
        let f = st.frames.len() - 1;
        assert(st.frames[f].at == j);
        assert(roles2[j as int] == roles[j as int]);
    }
}

/// The roles of a scan describe the text, and the open frames point at
/// their openers.
pub proof fn lemma_scan_describes(text: Seq<char>)
    requires
        text.len() <= usize::MAX,
    ensures
        roles_describe(text, scan(text).0),
        frames_point_at_openers(scan(text).1, scan(text).0),
    decreases text.len(),
{
    if text.len() > 0 {
        let prev = text.drop_last();
        lemma_scan_describes(prev);
        lemma_scan_len(prev);
        let (roles, st) = scan(prev);
        let i = (text.len() - 1) as usize;
        lemma_step(st, i, text.last());
        let (role, st2) = step(st, i, text.last());
        let roles2 = scan(text).0;
        assert(roles2 == roles.push(role));
        lemma_role_describes_last(text);
        assert forall|k: int| 0 <= k < roles2.len() implies #[trigger] role_describes(
            text,
            roles2,
            k,
        ) by {
            if k < roles.len() {
                lemma_role_describes_extend(prev, text, roles, role, k);
            }
        }
        assert forall|f: int| 0 <= f < st2.frames.len() implies {
            &&& (#[trigger] st2.frames[f]).at < roles2.len()
            &&& roles2[st2.frames[f].at as int] == Role::Open(st2.frames[f].construct)
        } by {
            let fr = st2.frames[f];
            if f < st.frames.len() {
                assert(fr == st.frames[f]);
                assert(roles2[fr.at as int] == roles[fr.at as int]);
            }
        }
    }
}

/// Scanning is incremental: the roles of a prefix are a prefix of the roles.
pub proof fn lemma_scan_prefix(text: Seq<char>, n: int)
    requires
        0 <= n <= text.len(),
    ensures
        scan(text).0.take(n) == scan(text.take(n)).0,
    decreases text.len(),
{
    lemma_scan_len(text);
    if n == text.len() {
        assert(text.take(n) == text);
        assert(scan(text).0.take(n) == scan(text).0);
    } else {
        let prev = text.drop_last();
        lemma_scan_len(prev);
        lemma_scan_prefix(prev, n);
        assert(prev.take(n) == text.take(n));
        assert(scan(text).0.take(n) == scan(prev).0.take(n));
    }
}

/// A character that opens a construct is closed by that construct's closer
/// typed right after it.
pub proof fn lemma_closer_after_opener(text: Seq<char>, k: Construct)
    requires
        0 < text.len() < usize::MAX,
        scan(text).0.last() == Role::Open(k),
    ensures
        scan(text.push(closer_of(k))).0.len() == text.len() + 1,
        scan(text.push(closer_of(k))).0[text.len() as int] == Role::Close(
            (text.len() - 1) as usize,
        ),
{
    let prev = text.drop_last();
    let (roles, st) = scan(prev);
    let i = (text.len() - 1) as usize;
    lemma_scan_len(prev);
    lemma_step(st, i, text.last());
    let st2 = scan(text).1;
    assert(st2.frames.last() == Frame { construct: k, at: i });
    let t2 = text.push(closer_of(k));
    assert(t2.drop_last() == text);
    assert(t2.last() == closer_of(k));
    lemma_scan_len(text);
    reveal(step);
}

/// The executable scanner, whose state is a `ScanState`.
struct Scanner {
    frames: Vec<Frame>,
    command_position: bool,
    escaped: bool,
    after_dollar: bool,
}

impl Scanner {
    spec fn state(&self) -> ScanState {
        ScanState {
            frames: self.frames@,
            command_position: self.command_position,
            escaped: self.escaped,
            after_dollar: self.after_dollar,
        }
    }

    fn new() -> (r: Scanner)
        ensures
            r.state() == initial_state(),
    {
        Scanner { frames: Vec::new(), command_position: true, escaped: false, after_dollar: false }
    }

    fn top_is(&self, k: Construct) -> (r: bool)
        ensures
            r == top_is(self.state(), k),
    {
        let n = self.frames.len();
        n > 0 && self.frames[n - 1].construct == k
    }

    fn close_top(&mut self) -> (r: Role)
        requires
            old(self).frames@.len() > 0,
        ensures
            (r, final(self).state()) == close_top(old(self).state()),
    {
        let f = self.frames.pop().unwrap();
        self.command_position = false;
        self.escaped = false;
        self.after_dollar = false;
        Role::Close(f.at)
    }

    fn open_at(&mut self, k: Construct, i: usize, command_position: bool) -> (r: Role)
        ensures
            (r, final(self).state()) == open_at(old(self).state(), k, i, command_position),
    {
        self.frames.push(Frame { construct: k, at: i });
        self.command_position = command_position;
        self.escaped = false;
        self.after_dollar = false;
        Role::Open(k)
    }

    fn plain(&mut self, command_position: bool, escaped: bool, after_dollar: bool) -> (r: Role)
        ensures
            (r, final(self).state()) == plain(
                old(self).state(),
                command_position,
                escaped,
                after_dollar,
            ),
    {
        self.command_position = command_position;
        self.escaped = escaped;
        self.after_dollar = after_dollar;
        Role::Plain
    }

    fn step_double_quoted(&mut self, i: usize, c: char) -> (r: Role)
        requires
            top_is(old(self).state(), Construct::DoubleQuote),
        ensures
            (r, final(self).state()) == step_double_quoted(old(self).state(), i, c),
    {
        let cp = self.command_position;
        if c == '\\' {
            self.plain(cp, true, false)
        } else if c == '"' {
            self.close_top()
        } else if c == '`' {
            self.open_at(Construct::Backtick, i, true)
        } else if c == '(' && self.after_dollar {
            self.open_at(Construct::CommandSubstitution, i, true)
        } else if c == '{' && self.after_dollar {
            self.open_at(Construct::ParameterExpansion, i, false)
        } else {
            self.plain(cp, false, c == '$')
        }
    }

    fn step_unquoted(&mut self, i: usize, c: char) -> (r: Role)
        ensures
            (r, final(self).state()) == step_unquoted(old(self).state(), i, c),
    {
        if c == '\\' {
            self.plain(false, true, false)
        } else if c == '"' {
            self.open_at(Construct::DoubleQuote, i, false)
        } else if c == '\'' {
            self.open_at(Construct::SingleQuote, i, false)
        } else if c == '`' {
            if self.top_is(Construct::Backtick) {
                self.close_top()
            } else {
                self.open_at(Construct::Backtick, i, true)
            }
        } else if c == '(' {
            if self.after_dollar {
                self.open_at(Construct::CommandSubstitution, i, true)
            } else {
                self.open_at(Construct::Subshell, i, true)
            }
        } else if c == ')' {
            if self.top_is(Construct::Subshell) || self.top_is(Construct::CommandSubstitution) {
                self.close_top()
            } else {
                self.plain(false, false, false)
            }
        } else if c == '{' {
            if self.after_dollar {
                self.open_at(Construct::ParameterExpansion, i, false)
            } else {
                self.open_at(Construct::BraceGroup, i, true)
            }
        } else if c == '}' {
            if self.top_is(Construct::BraceGroup) || self.top_is(Construct::ParameterExpansion) {
                self.close_top()
            } else {
                self.plain(false, false, false)
            }
        } else if c == '[' {
            if self.command_position {
                self.plain(false, false, false)
            } else {
                self.open_at(Construct::Bracket, i, false)
            }
        } else if c == ']' {
            if self.top_is(Construct::Bracket) {
                self.close_top()
            } else {
                self.plain(false, false, false)
            }
        } else if c == '$' {
            self.plain(false, false, true)
        } else if c == '|' || c == ';' || c == '&' || c == '\n' {
            self.plain(true, false, false)
        } else if c == ' ' || c == '\t' {
            let cp = self.command_position;
            self.plain(cp, false, false)
        } else {
            self.plain(false, false, false)
        }
    }

    fn step(&mut self, i: usize, c: char) -> (r: Role)
        ensures
            (r, final(self).state()) == step(old(self).state(), i, c),
    {
        reveal(step);
        if self.top_is(Construct::SingleQuote) {
            if c == '\'' {
                self.close_top()
            } else {
                let cp = self.command_position;
                self.plain(cp, false, false)
            }
        } else if self.escaped {
            let cp = if self.top_is(Construct::DoubleQuote) {
                self.command_position
            } else {
                false
            };
            self.plain(cp, false, false)
        } else if self.top_is(Construct::DoubleQuote) {
            self.step_double_quoted(i, c)
        } else {
            self.step_unquoted(i, c)
        }
    }
}

/// Annotates the characters `text`, marking none as inserted automatically.
pub fn annotate_chars(text: &Vec<char>) -> (r: Vec<AnnotatedToken>)
    ensures
        token_chars(r@) == text@,
        token_roles(r@) == syntax_roles(text@),
        token_flags(r@) == no_flags(text@.len()),
{
    let mut sc = Scanner::new();
    let mut out: Vec<AnnotatedToken> = Vec::new();
    let mut i: usize = 0;
    while i < text.len()
        invariant
            i <= text.len(),
            token_chars(out@) == text@.take(i as int),
            (token_roles(out@), sc.state()) == scan(text@.take(i as int)),
            token_flags(out@) == no_flags(i as nat),
        decreases text.len() - i,
    {
        let c = text[i];
        assert(text@.take(i + 1).drop_last() == text@.take(i as int));
        assert(text@.take(i + 1).last() == c);
        let role = sc.step(i, c);
        let tok = AnnotatedToken { ch: c, role, auto_inserted: false };
        proof {
            lemma_push_views(out@, tok);
        }
        out.push(tok);
        i = i + 1;
    }
    assert(text@.take(text.len() as int) == text@);
    out
}


/// The three views of a token sequence: its characters, their roles, and
/// which of them were inserted automatically.
#[verifier::ext_equal]
pub struct TokensView {
    pub chars: Seq<char>,
    pub roles: Seq<Role>,
    pub flags: Seq<bool>,
}

pub open spec fn tokens_view(toks: Seq<AnnotatedToken>) -> TokensView {
    TokensView { chars: token_chars(toks), roles: token_roles(toks), flags: token_flags(toks) }
}

/// The three views have one entry per character.
pub open spec fn view_lengths_agree(v: TokensView) -> bool {
    v.roles.len() == v.chars.len() && v.flags.len() == v.chars.len()
}

pub proof fn lemma_tokens_view_lengths(toks: Seq<AnnotatedToken>)
    ensures
        view_lengths_agree(tokens_view(toks)),
        tokens_view(toks).chars.len() == toks.len(),
        forall|i: int|
            0 <= i < toks.len() ==> {
                &&& tokens_view(toks).chars[i] == (#[trigger] toks[i]).ch
                &&& tokens_view(toks).roles[i] == toks[i].role
                &&& tokens_view(toks).flags[i] == toks[i].auto_inserted
            },
{
}

/// The tokens of a fresh parse of `text`.
pub open spec fn fresh_view(text: Seq<char>) -> TokensView {
    TokensView { chars: text, roles: syntax_roles(text), flags: no_flags(text.len()) }
}

/// How many characters at the end of `a` and `b` agree, counting on from `k`.
pub open spec fn suffix_match(a: Seq<char>, b: Seq<char>, k: nat) -> nat
    decreases a.len() - k,
{
    if k < a.len() && k < b.len() && a[a.len() - 1 - k] == b[b.len() - 1 - k] {
        suffix_match(a, b, k + 1)
    } else {
        k
    }
}

/// How many characters at the start of `a` and `b` agree, at most `lim`,
/// counting on from `k`.
pub open spec fn prefix_match(a: Seq<char>, b: Seq<char>, lim: nat, k: nat) -> nat
    decreases lim - k,
{
    if k < lim && k < a.len() && k < b.len() && a[k as int] == b[k as int] {
        prefix_match(a, b, lim, k + 1)
    } else {
        k
    }
}

/// The length of the longest common suffix of `a` and `b`.
pub open spec fn common_suffix(a: Seq<char>, b: Seq<char>) -> nat {
    suffix_match(a, b, 0)
}

/// The length of the longest common prefix of `a` and `b` that does not
/// overlap their common suffix.
pub open spec fn common_prefix(a: Seq<char>, b: Seq<char>) -> nat {
    let s = common_suffix(a, b);
    let m = if a.len() < b.len() {
        a.len()
    } else {
        b.len()
    };
    prefix_match(a, b, (m - s) as nat, 0)
}

/// Whether the character at index `i` of `new_text` was inserted
/// automatically, going by the old characters and flags. The edit is located
/// by matching the longest common suffix of the old and new text first, then
/// the longest common prefix of what remains; a character in either keeps its
/// old flag, and the characters in between, which the edit wrote, carry none.
pub open spec fn transferred_flag(
    old_chars: Seq<char>,
    old_flags: Seq<bool>,
    new_text: Seq<char>,
    i: int,
) -> bool {
    let s = common_suffix(old_chars, new_text);
    let p = common_prefix(old_chars, new_text);
    if i < p {
        old_flags[i]
    } else if i >= new_text.len() - s {
        old_flags[i - new_text.len() + old_chars.len()]
    } else {
        false
    }
}

/// A fresh parse of `new_text` that keeps the flags of `old`.
pub open spec fn transfer_view(new_text: Seq<char>, old: TokensView) -> TokensView {
    TokensView {
        chars: new_text,
        roles: syntax_roles(new_text),
        flags: Seq::new(
            new_text.len(),
            |i: int| transferred_flag(old.chars, old.flags, new_text, i),
        ),
    }
}

/// The characters `j` places from the end of `a` and `b` agree.
pub open spec fn agree_from_end(a: Seq<char>, b: Seq<char>, j: int) -> bool {
    a[a.len() - 1 - j] == b[b.len() - 1 - j]
}

pub proof fn lemma_suffix_match(a: Seq<char>, b: Seq<char>, k: nat)
    requires
        k <= a.len(),
        k <= b.len(),
    ensures
        k <= suffix_match(a, b, k) <= a.len(),
        suffix_match(a, b, k) <= b.len(),
        forall|j: int| k <= j < suffix_match(a, b, k) ==> #[trigger] agree_from_end(a, b, j),
    decreases a.len() - k,
{
    if k < a.len() && k < b.len() && a[a.len() - 1 - k] == b[b.len() - 1 - k] {
        lemma_suffix_match(a, b, k + 1);
    }
}

pub proof fn lemma_prefix_match(a: Seq<char>, b: Seq<char>, lim: nat, k: nat)
    requires
        k <= lim,
        lim <= a.len(),
        lim <= b.len(),
    ensures
        k <= prefix_match(a, b, lim, k) <= lim,
        forall|j: int| k <= j < prefix_match(a, b, lim, k) ==> a[j] == b[j],
    decreases lim - k,
{
    if k < lim && k < a.len() && k < b.len() && a[k as int] == b[k as int] {
        lemma_prefix_match(a, b, lim, k + 1);
    }
}

/// The common suffix and prefix fit in both texts without overlapping, and a
/// character that keeps its flag is the same character as before.
pub proof fn lemma_alignment(a: Seq<char>, b: Seq<char>)
    ensures
        common_suffix(a, b) <= a.len(),
        common_suffix(a, b) <= b.len(),
        common_prefix(a, b) + common_suffix(a, b) <= a.len(),
        common_prefix(a, b) + common_suffix(a, b) <= b.len(),
        forall|i: int| 0 <= i < common_prefix(a, b) ==> a[i] == b[i],
        forall|i: int|
            b.len() - common_suffix(a, b) <= i < b.len() ==> a[i - b.len() + a.len()] == b[i],
{
    lemma_suffix_match(a, b, 0);
    let s = common_suffix(a, b);
    let m = if a.len() < b.len() {
        a.len()
    } else {
        b.len()
    };
    lemma_prefix_match(a, b, (m - s) as nat, 0);
    assert forall|i: int| b.len() - s <= i < b.len() implies a[i - b.len() + a.len()]
        == b[i] by {
        let j = b.len() - 1 - i;
        assert(0 <= j < s);
        assert(agree_from_end(a, b, j));
    }
}

/// The length of the longest common suffix of the tokens' characters and `b`.
fn common_suffix_len(toks: &[AnnotatedToken], b: &Vec<char>) -> (r: usize)
    ensures
        r == common_suffix(token_chars(toks@), b@),
{
    let ghost a = token_chars(toks@);
    proof {
        lemma_tokens_view_lengths(toks@);
    }
    let na = toks.len();
    let nb = b.len();
    let mut k: usize = 0;
    while k < na && k < nb && toks[na - 1 - k].ch == b[nb - 1 - k]
        invariant
            na == a.len(),
            nb == b@.len(),
            na == toks@.len(),
            k <= na,
            k <= nb,
            suffix_match(a, b@, k as nat) == suffix_match(a, b@, 0),
            forall|i: int| 0 <= i < toks@.len() ==> a[i] == (#[trigger] toks@[i]).ch,
        decreases na - k,
    {
        k = k + 1;
    }
    k
}

/// The length of the longest common prefix of the tokens' characters and `b`,
/// at most `lim`.
fn common_prefix_len(toks: &[AnnotatedToken], b: &Vec<char>, lim: usize) -> (r: usize)
    requires
        lim <= toks@.len(),
        lim <= b@.len(),
    ensures
        r == prefix_match(token_chars(toks@), b@, lim as nat, 0),
{
    let ghost a = token_chars(toks@);
    proof {
        lemma_tokens_view_lengths(toks@);
    }
    let mut k: usize = 0;
    while k < lim && toks[k].ch == b[k]
        invariant
            lim <= toks@.len(),
            lim <= b@.len(),
            toks@.len() == a.len(),
            k <= lim,
            prefix_match(a, b@, lim as nat, k as nat) == prefix_match(a, b@, lim as nat, 0),
            forall|i: int| 0 <= i < toks@.len() ==> a[i] == (#[trigger] toks@[i]).ch,
        decreases lim - k,
    {
        k = k + 1;
    }
    k
}

/// A fresh parse of `text` that keeps the flags of `previous`.
pub fn transfer_flags_to_chars(text: &Vec<char>, previous: &[AnnotatedToken]) -> (r: Vec<
    AnnotatedToken,
>)
    ensures
        tokens_view(r@) =~= transfer_view(text@, tokens_view(previous@)),
{
    let fresh = annotate_chars(text);
    let ghost old = tokens_view(previous@);
    proof {
        lemma_tokens_view_lengths(previous@);
        lemma_tokens_view_lengths(fresh@);
        lemma_alignment(old.chars, text@);
        lemma_scan_len(text@);
    }
    let n = text.len();
    let m = previous.len();
    let s = common_suffix_len(previous, text);
    let lim = if m < n {
        m - s
    } else {
        n - s
    };
    let p = common_prefix_len(previous, text, lim);
    let mut out: Vec<AnnotatedToken> = Vec::new();
    let mut i: usize = 0;
    while i < n
        invariant
            n == text@.len(),
            m == previous@.len(),
            fresh@.len() == n,
            s == common_suffix(old.chars, text@),
            p == common_prefix(old.chars, text@),
            p + s <= n,
            p + s <= m,
            i <= n,
            old == tokens_view(previous@),
            view_lengths_agree(old),
            old.chars.len() == m,
            syntax_roles(text@).len() == n,
            forall|k: int|
                0 <= k < n ==> (#[trigger] fresh@[k]).ch == text@[k] && fresh@[k].role
                    == syntax_roles(text@)[k],
            forall|k: int| 0 <= k < m ==> old.flags[k] == (#[trigger] previous@[k]).auto_inserted,
            token_chars(out@) == text@.take(i as int),
            token_roles(out@) == syntax_roles(text@).take(i as int),
            token_flags(out@) == Seq::new(
                i as nat,
                |k: int| transferred_flag(old.chars, old.flags, text@, k),
            ),
        decreases n - i,
    {
        let flag = if i < p {
            previous[i].auto_inserted
        } else if i >= n - s {
            previous[i - (n - s) + (m - s)].auto_inserted
        } else {
            false
        };
        let tok = AnnotatedToken { ch: fresh[i].ch, role: fresh[i].role, auto_inserted: flag };
        proof {
            lemma_push_views(out@, tok);
            assert(text@.take(i + 1) == text@.take(i as int).push(text@[i as int]));
            assert(syntax_roles(text@).take(i + 1) == syntax_roles(text@).take(i as int).push(
                syntax_roles(text@)[i as int],
            ));
            assert(Seq::new(
                (i + 1) as nat,
                |k: int| transferred_flag(old.chars, old.flags, text@, k),
            ) == Seq::new(
                i as nat,
                |k: int| transferred_flag(old.chars, old.flags, text@, k),
            ).push(flag));
        }
        out.push(tok);
        i = i + 1;
    }
    proof {
        lemma_scan_len(text@);
        assert(text@.take(n as int) == text@);
        assert(syntax_roles(text@).take(n as int) == syntax_roles(text@));
    }
    out
}


/// The opener at `p` is matched by a closer that the user typed, as opposed to
/// one the editor inserted.
pub open spec fn closed_by_typed_closer(v: TokensView, p: int) -> bool {
    exists|j: int|
        0 <= j < v.roles.len() && v.roles[j] == Role::Close(p as usize) && !v.flags[j]
}

/// The closing character to insert after `c` was inserted at `p`: the closer of
/// the construct that `c` opened, unless a closer the user typed already
/// closes it.
pub open spec fn closing_choice(v: TokensView, c: char, p: int) -> Option<char> {
    if 0 <= p < v.chars.len() && v.chars[p] == c && v.roles[p] is Open
        && !closed_by_typed_closer(v, p) {
        Some(closer_of(v.roles[p]->Open_0))
    } else {
        None
    }
}

/// The view with the flag at `p` set to `b`.
pub open spec fn with_flag(v: TokensView, p: int, b: bool) -> TokensView {
    TokensView { chars: v.chars, roles: v.roles, flags: v.flags.update(p, b) }
}

/// The character at `p` is a closing `closing` that can be marked as inserted
/// automatically.
pub open spec fn mark_applies(v: TokensView, closing: char, p: int) -> bool {
    0 <= p < v.chars.len() && v.chars[p] == closing && v.roles[p] is Close
}

/// The character at `p` is an automatically inserted `c`, which typing `c`
/// steps over.
pub open spec fn consume_applies(v: TokensView, c: char, p: int) -> bool {
    0 <= p < v.chars.len() && v.flags[p] && v.chars[p] == c
}

/// The character at `p` was inserted automatically and closes the construct
/// opened just before it.
pub open spec fn delete_applies(v: TokensView, p: int) -> bool {
    0 < p < v.chars.len() && v.flags[p] && v.roles[p] == Role::Close((p - 1) as usize)
}

/// Sets the flag of token `p` to `b`.
fn set_flag(toks: &mut Vec<AnnotatedToken>, p: usize, b: bool)
    requires
        p < old(toks)@.len(),
    ensures
        tokens_view(final(toks)@) =~= with_flag(tokens_view(old(toks)@), p as int, b),
        final(toks)@.len() == old(toks)@.len(),
{
    let t = toks[p];
    let ghost before = toks@;
    toks.set(p, AnnotatedToken { ch: t.ch, role: t.role, auto_inserted: b });
    proof {
        lemma_tokens_view_lengths(before);
        lemma_tokens_view_lengths(toks@);
        assert forall|i: int| 0 <= i < toks@.len() && i != p implies toks@[i] == before[i] by {}
    }
}

/// The shell-syntax scanner that annotates a command line.
pub struct DParser;

impl DParser {
    /// The tokens of `input`, none marked as inserted automatically.
    pub fn parse_and_annotate(input: &str) -> (r: Vec<AnnotatedToken>)
        ensures
            tokens_view(r@) =~= fresh_view(input@),
    {
        let chars = str_to_chars(input);
        annotate_chars(&chars)
    }

    /// The tokens of `buffer`, keeping the auto-inserted marks of `previous`
    /// on the characters that the edit from `previous` to `buffer` left alone.
    /// The edit is located from the two texts alone (see `transferred_flag`):
    /// when the characters next to the edit equal the edited ones, it cannot
    /// tell them apart, and a mark may move to a neighbouring equal character.
    pub fn parse_and_transfer_auto_inserted_flags(
        buffer: &str,
        previous: &[AnnotatedToken],
    ) -> (r: Vec<AnnotatedToken>)
        ensures
            tokens_view(r@) =~= transfer_view(buffer@, tokens_view(previous@)),
    {
        let chars = str_to_chars(buffer);
        transfer_flags_to_chars(&chars, previous)
    }

    /// The closing character to insert after `c` was inserted at character
    /// index `inserted_pos`, or `None`.
    pub fn closing_char_to_insert_after_insertion(
        tokens: &[AnnotatedToken],
        c: char,
        inserted_pos: usize,
    ) -> (r: Option<char>)
        ensures
            r == closing_choice(tokens_view(tokens@), c, inserted_pos as int),
    {
        let ghost v = tokens_view(tokens@);
        proof {
            lemma_tokens_view_lengths(tokens@);
        }
        if inserted_pos >= tokens.len() || tokens[inserted_pos].ch != c {
            return None;
        }
        let k = match tokens[inserted_pos].role {
            Role::Open(k) => k,
            _ => {
                return None;
            },
        };
        let mut j: usize = 0;
        while j < tokens.len()
            invariant
                j <= tokens@.len(),
                v == tokens_view(tokens@),
                view_lengths_agree(v),
                v.chars.len() == tokens@.len(),
                inserted_pos < tokens@.len(),
                forall|i: int|
                    0 <= i < tokens@.len() ==> v.roles[i] == (#[trigger] tokens@[i]).role
                        && v.flags[i] == tokens@[i].auto_inserted,
                forall|i: int|
                    0 <= i < j ==> !(v.roles[i] == Role::Close(inserted_pos) && !v.flags[i]),
            decreases tokens@.len() - j,
        {
            if !tokens[j].auto_inserted {
                if let Role::Close(o) = tokens[j].role {
                    if o == inserted_pos {
                        return None;
                    }
                }
            }
            j = j + 1;
        }
        Some(closer_char(k))
    }

    /// Marks the closing character `closing` at index `closing_pos` as
    /// inserted automatically. Returns whether there was one to mark.
    pub fn mark_auto_inserted_closing(
        tokens: &mut Vec<AnnotatedToken>,
        closing: char,
        closing_pos: usize,
    ) -> (r: bool)
        ensures
            r == mark_applies(tokens_view(old(tokens)@), closing, closing_pos as int),
            r ==> tokens_view(final(tokens)@) =~= with_flag(
                tokens_view(old(tokens)@),
                closing_pos as int,
                true,
            ),
            !r ==> final(tokens)@ == old(tokens)@,
    {
        proof {
            lemma_tokens_view_lengths(tokens@);
        }
        if closing_pos < tokens.len() && tokens[closing_pos].ch == closing {
            if let Role::Close(_) = tokens[closing_pos].role {
                set_flag(tokens, closing_pos, true);
                return true;
            }
        }
        false
    }

    /// When `c` is typed at index `cursor` over a closing `c` that was inserted
    /// automatically, clears that mark and returns `true`: the caller then
    /// moves over the character instead of inserting another.
    pub fn consume_overwritten_auto_inserted_closing(
        tokens: &mut Vec<AnnotatedToken>,
        c: char,
        cursor: usize,
    ) -> (r: bool)
        ensures
            r == consume_applies(tokens_view(old(tokens)@), c, cursor as int),
            r ==> tokens_view(final(tokens)@) =~= with_flag(
                tokens_view(old(tokens)@),
                cursor as int,
                false,
            ),
            !r ==> final(tokens)@ == old(tokens)@,
    {
        proof {
            lemma_tokens_view_lengths(tokens@);
        }
        if cursor < tokens.len() && tokens[cursor].auto_inserted && tokens[cursor].ch == c {
            set_flag(tokens, cursor, false);
            true
        } else {
            false
        }
    }

    /// Whether the character at index `cursor` was inserted automatically and
    /// closes the construct opened by the character just before the cursor.
    pub fn should_delete_auto_inserted_closing(tokens: &[AnnotatedToken], cursor: usize) -> (r:
        bool)
        ensures
            r == delete_applies(tokens_view(tokens@), cursor as int),
    {
        proof {
            lemma_tokens_view_lengths(tokens@);
        }
        if cursor > 0 && cursor < tokens.len() && tokens[cursor].auto_inserted {
            match tokens[cursor].role {
                Role::Close(o) => o == cursor - 1,
                _ => false,
            }
        } else {
            false
        }
    }
}

/// The character that closes construct `k`.
pub fn closer_char(k: Construct) -> (r: char)
    ensures
        r == closer_of(k),
{
    match k {
        Construct::DoubleQuote => '"',
        Construct::SingleQuote => '\'',
        Construct::Backtick => '`',
        Construct::Subshell => ')',
        Construct::CommandSubstitution => ')',
        Construct::BraceGroup => '}',
        Construct::ParameterExpansion => '}',
        Construct::Bracket => ']',
    }
}

} // verus!
