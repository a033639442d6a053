use vstd::prelude::*;

use crate::dparser::{
    closing_choice, consume_applies, delete_applies, mark_applies, syntax_roles, tokens_view,
    transfer_view, with_flag, AnnotatedToken, DParser, TokensView,
};
use crate::text_buffer::{TextBuffer, MAX_BUFFER_CHARS};

verus! {

/// The closing character that pairs with `c` when a selection is surrounded,
/// or `None` when `c` opens no pair.
pub open spec fn spec_surround_closing_char(c: char) -> Option<char> {
    if c == '(' {
        Some(')')
    } else if c == '[' {
        Some(']')
    } else if c == '{' {
        Some('}')
    } else if c == '"' {
        Some('"')
    } else if c == '\'' {
        Some('\'')
    } else if c == '`' {
        Some('`')
    } else {
        None
    }
}

/// Returns the corresponding closing character for surrounding a selection,
/// or `None` if `c` is not a recognised pairing character.
pub fn surround_closing_char(c: char) -> (r: Option<char>)
    ensures
        r == spec_surround_closing_char(c),
{
    match c {
        '(' => Some(')'),
        '[' => Some(']'),
        '{' => Some('}'),
        '"' => Some('"'),
        '\'' => Some('\''),
        '`' => Some('`'),
        _ => None,
    }
}

/// Text, cursor and token cache after typing `c` at `cursor`.
///
/// Typing a closing character over one that the editor inserted steps over it.
/// Otherwise `c` is inserted, the text is parsed again with the marks carried
/// over by `transfer_view`, and when `c` opened a construct that no typed closer
/// closes, that construct's closer is inserted after it and marked, with the
/// cursor left between the two.
pub open spec fn insertion_outcome(text: Seq<char>, cursor: nat, cache: TokensView, c: char) -> (
    Seq<char>,
    nat,
    TokensView,
) {
    if consume_applies(cache, c, cursor as int) {
        (
            text,
            if cursor < text.len() {
                cursor + 1
            } else {
                cursor
            },
            with_flag(cache, cursor as int, false),
        )
    } else {
        let t1 = text.insert(cursor as int, c);
        let v1 = transfer_view(t1, cache);
        match closing_choice(v1, c, cursor as int) {
            Some(k) => {
                let t2 = t1.insert(cursor + 1int, k);
                let v2 = transfer_view(t2, v1);
                (
                    t2,
                    cursor + 1,
                    if mark_applies(v2, k, cursor + 1int) {
                        with_flag(v2, cursor + 1int, true)
                    } else {
                        v2
                    },
                )
            },
            None => (t1, cursor + 1, v1),
        }
    }
}

/// The closing characters: the ones the editor can insert automatically.
pub open spec fn is_closing_char(c: char) -> bool {
    c == ')' || c == ']' || c == '}' || c == '"' || c == '\'' || c == '`'
}

/// Only closing characters carry the auto-inserted mark.
pub open spec fn marks_on_closers(v: TokensView) -> bool {
    &&& v.roles.len() == v.chars.len()
    &&& v.flags.len() == v.chars.len()
    &&& forall|i: int| 0 <= i < v.flags.len() && #[trigger] v.flags[i] ==> is_closing_char(v.chars[i])
}

/// The token cache describes `text`: its characters are the text, its roles are
/// a fresh parse of it, and only closing characters carry the mark.
pub open spec fn cache_matches(v: TokensView, text: Seq<char>) -> bool {
    &&& v.chars == text
    &&& v.roles == syntax_roles(text)
    &&& marks_on_closers(v)
}

/// What typing `c` at `cursor` is guaranteed to do when the cache matches the
/// text:
/// - the cache still matches the new text and the cursor lies within it;
/// - the cursor ends right after `c`, and the text either is unchanged (`c` was
///   stepped over), or has `c` inserted, or has `c` and the closing character
///   that `c` pairs with inserted;
/// - stepping over clears the mark of the character stepped over and keeps
///   every other mark;
/// - unless the character before the cursor is `c` itself, every mark stays on
///   its character, the inserted `c` carries none and an inserted closer
///   carries one. (When it is `c`, lining the texts up by content cannot tell
///   the old `c` from the new one, and a mark on the old one may move to it.)
pub open spec fn typing_guarantees(text: Seq<char>, cursor: nat, cache: TokensView, c: char) -> bool {
    let (t, cur, v) = insertion_outcome(text, cursor, cache, c);
    &&& cache_matches(v, t)
    &&& cur == cursor + 1
    &&& cur <= t.len()
    &&& {
        ||| t == text && cursor < text.len() && text[cursor as int] == c
        ||| t == text.insert(cursor as int, c)
        ||| spec_surround_closing_char(c) matches Some(k) && t == text.insert(cursor as int, c).insert(
            cursor + 1int,
            k,
        )
    }
    &&& t.len() == text.len() ==> v.flags == cache.flags.update(cursor as int, false)
    &&& (cursor == 0 || text[cursor - 1] != c) ==> {
        &&& t.len() == text.len() + 1 ==> v.flags == cache.flags.insert(cursor as int, false)
        &&& t.len() == text.len() + 2 ==> v.flags == cache.flags.insert(
            cursor as int,
            false,
        ).insert(cursor + 1int, true)
    }
}

/// Text and cursor after the clean-up that runs before a Backspace at
/// `cursor`: an auto-inserted closer right after the cursor that closes the
/// construct opened just before it is deleted, and so is a `)` right after the
/// cursor when a `(` stands right before it.
pub open spec fn deletion_outcome(text: Seq<char>, cursor: nat, cache: TokensView) -> (
    Seq<char>,
    nat,
) {
    if delete_applies(cache, cursor as int) {
        if cursor < text.len() {
            (text.remove(cursor as int), cursor)
        } else {
            (text, cursor)
        }
    } else if 0 < cursor < text.len() && text[cursor - 1] == '(' && text[cursor as int] == ')' {
        (text.remove(cursor as int), cursor)
    } else {
        (text, cursor)
    }
}

/// Types `c` into `buffer`, inserting or stepping over paired closing
/// characters, and keeps `dparser_tokens_cache` up to date with the buffer.
pub fn handle_char_insertion(
    buffer: &mut TextBuffer,
    dparser_tokens_cache: &mut Vec<AnnotatedToken>,
    c: char,
)
    requires
        old(buffer).text().len() + 2 <= MAX_BUFFER_CHARS,
    ensures
        final(buffer).text() == insertion_outcome(
            old(buffer).text(),
            old(buffer).cursor(),
            tokens_view(old(dparser_tokens_cache)@),
            c,
        ).0,
        final(buffer).cursor() == insertion_outcome(
            old(buffer).text(),
            old(buffer).cursor(),
            tokens_view(old(dparser_tokens_cache)@),
            c,
        ).1,
        tokens_view(final(dparser_tokens_cache)@) =~= insertion_outcome(
            old(buffer).text(),
            old(buffer).cursor(),
            tokens_view(old(dparser_tokens_cache)@),
            c,
        ).2,
        cache_matches(tokens_view(old(dparser_tokens_cache)@), old(buffer).text())
            ==> typing_guarantees(
            old(buffer).text(),
            old(buffer).cursor(),
            tokens_view(old(dparser_tokens_cache)@),
            c,
        ),
{
    let cursor = buffer.cursor_pos();
    proof {
        crate::laws::law_typing_guarantees(
            buffer.text(),
            buffer.cursor(),
            tokens_view(dparser_tokens_cache@),
            c,
        );
    }
    if DParser::consume_overwritten_auto_inserted_closing(dparser_tokens_cache, c, cursor) {
        buffer.move_right();
    } else {
        let inserted_pos = buffer.cursor_pos();
        proof {
            buffer.text().insert_ensures(inserted_pos as int, c);
        }
        buffer.insert_char(c);
        let tokens_after_insertion = DParser::parse_and_transfer_auto_inserted_flags(
            buffer.buffer(),
            dparser_tokens_cache.as_slice(),
        );
        match DParser::closing_char_to_insert_after_insertion(
            tokens_after_insertion.as_slice(),
            c,
            inserted_pos,
        ) {
            Some(closing) => {
                buffer.insert_char(closing);
                buffer.move_left();
                let closing_pos = buffer.cursor_pos();
                let mut final_tokens = DParser::parse_and_transfer_auto_inserted_flags(
                    buffer.buffer(),
                    tokens_after_insertion.as_slice(),
                );
                let _marked = DParser::mark_auto_inserted_closing(
                    &mut final_tokens,
                    closing,
                    closing_pos,
                );
                *dparser_tokens_cache = final_tokens;
            },
            None => {
                *dparser_tokens_cache = tokens_after_insertion;
            },
        }
    }
}

/// Runs before a simple Backspace: if the character right after the cursor is
/// an auto-inserted closer paired with the character right before it, deletes
/// it, so that deleting an auto-paired opener also removes its closer.
pub fn delete_auto_inserted_closing_if_present(
    buffer: &mut TextBuffer,
    dparser_tokens_cache: &[AnnotatedToken],
)
    ensures
        (final(buffer).text(), final(buffer).cursor()) == deletion_outcome(
            old(buffer).text(),
            old(buffer).cursor(),
            tokens_view(dparser_tokens_cache@),
        ),
{
    let cursor_pos = buffer.cursor_pos();
    if DParser::should_delete_auto_inserted_closing(dparser_tokens_cache, cursor_pos) {
        buffer.delete_right();
        return;
    }
    // Fallback for a `(`/`)` pair without a mark (typed by the user, or one whose
    // mark was lost when the marks were carried over by content): with the
    // cursor right between `(` and `)`, delete the `)` so that Backspace
    // removes the innermost pair.

    if cursor_pos > 0 {
        let left_char = buffer.char_before_cursor();
        let right_char = buffer.char_after_cursor();
        if left_char == Some('(') && right_char == Some(')') {
            buffer.delete_right();
        }
    }
}

/// The editor state that typing acts on: the command line and the tokens of
/// its last parse.
pub struct App {
    pub buffer: TextBuffer,
    pub dparser_tokens_cache: Vec<AnnotatedToken>,
}

impl App {
    /// An editor holding `s`, with the cursor at its end.
    pub fn new(s: &str) -> (r: App)
        requires
            s@.len() <= MAX_BUFFER_CHARS,
        ensures
            r.buffer.text() == s@,
            r.buffer.cursor() == s@.len(),
            tokens_view(r.dparser_tokens_cache@) =~= crate::dparser::fresh_view(s@),
    {
        let buffer = TextBuffer::new(s);
        let dparser_tokens_cache = DParser::parse_and_annotate(s);
        App { buffer, dparser_tokens_cache }
    }

    /// Types `c` at the cursor; see `handle_char_insertion`.
    pub fn handle_char_insertion(&mut self, c: char)
        requires
            old(self).buffer.text().len() + 2 <= MAX_BUFFER_CHARS,
        ensures
            final(self).buffer.text() == insertion_outcome(
                old(self).buffer.text(),
                old(self).buffer.cursor(),
                tokens_view(old(self).dparser_tokens_cache@),
                c,
            ).0,
            final(self).buffer.cursor() == insertion_outcome(
                old(self).buffer.text(),
                old(self).buffer.cursor(),
                tokens_view(old(self).dparser_tokens_cache@),
                c,
            ).1,
            tokens_view(final(self).dparser_tokens_cache@) =~= insertion_outcome(
                old(self).buffer.text(),
                old(self).buffer.cursor(),
                tokens_view(old(self).dparser_tokens_cache@),
                c,
            ).2,
            cache_matches(tokens_view(old(self).dparser_tokens_cache@), old(self).buffer.text())
                ==> typing_guarantees(
                old(self).buffer.text(),
                old(self).buffer.cursor(),
                tokens_view(old(self).dparser_tokens_cache@),
                c,
            ),
    {
        handle_char_insertion(&mut self.buffer, &mut self.dparser_tokens_cache, c);
    }

    /// The clean-up before Backspace; see `delete_auto_inserted_closing_if_present`.
    pub fn delete_auto_inserted_closing_if_present(&mut self)
        ensures
            final(self).dparser_tokens_cache@ == old(self).dparser_tokens_cache@,
            (final(self).buffer.text(), final(self).buffer.cursor()) == deletion_outcome(
                old(self).buffer.text(),
                old(self).buffer.cursor(),
                tokens_view(old(self).dparser_tokens_cache@),
            ),
    {
        delete_auto_inserted_closing_if_present(&mut self.buffer, self.dparser_tokens_cache.as_slice());
    }
}

} // verus!
