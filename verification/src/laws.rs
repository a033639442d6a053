use vstd::prelude::*;

use crate::auto_close::{
    cache_matches, deletion_outcome, insertion_outcome, is_closing_char, marks_on_closers,
    spec_surround_closing_char, typing_guarantees,
};
use crate::dparser::{
    agree_from_end, closer_of, closing_choice, common_prefix, common_suffix, consume_applies,
    delete_applies, prefix_match, suffix_match,
    lemma_closer_after_opener, lemma_scan_describes, lemma_scan_len, lemma_scan_prefix,
    mark_applies, role_describes, roles_describe, syntax_roles, tokens_view, transfer_view,
    with_flag, AnnotatedToken, Construct, Role, ScanState, TokensView, scan, step, top_is,
};
use crate::text_buffer::{after_backspace, MAX_BUFFER_CHARS};

verus! {

/// The facts about typing an opener that the editor pairs with its closer.
proof fn lemma_auto_pair(text: Seq<char>, cursor: nat, cache: TokensView, c: char)
    requires
        cursor <= text.len(),
        text.len() + 2 <= MAX_BUFFER_CHARS,
        insertion_outcome(text, cursor, cache, c).0.len() == text.len() + 2,
    ensures
        ({
            let t1 = text.insert(cursor as int, c);
            let v1 = transfer_view(t1, cache);
            let k = closing_choice(v1, c, cursor as int)->Some_0;
            let (t, cur, v) = insertion_outcome(text, cursor, cache, c);
            &&& closing_choice(v1, c, cursor as int) is Some
            &&& Some(k) == spec_surround_closing_char(c)
            &&& t == t1.insert(cursor + 1int, k)
            &&& cur == cursor + 1
            &&& v.chars == t
            &&& v.roles.len() == t.len()
            &&& v.flags.len() == t.len()
            &&& v.roles[cursor + 1int] == Role::Close(cursor as usize)
            &&& v.flags[cursor + 1int]
        }),
{
    let p = cursor as int;
    let t1 = text.insert(p, c);
    text.insert_ensures(p, c);
    if consume_applies(cache, c, p) {
        assert(false);
    }
    let v1 = transfer_view(t1, cache);
    match closing_choice(v1, c, p) {
        Some(k) => {
            let t2 = t1.insert(p + 1, k);
            t1.insert_ensures(p + 1, k);
            let v2 = transfer_view(t2, v1);
            lemma_scan_len(t1);
            lemma_scan_len(t2);
            let kind = v1.roles[p]->Open_0;
            // The opener's construct is the one its character pairs with.
            lemma_scan_describes(t1);
            assert(role_describes(t1, syntax_roles(t1), p));
            assert(t1[p] == c);
            // The closer typed right after the opener closes it.
            let pre = t1.take(p + 1);
            lemma_scan_prefix(t1, p + 1);
            assert(syntax_roles(pre).last() == syntax_roles(t1)[p]);
            lemma_closer_after_opener(pre, kind);
            assert(t2.take(p + 2) == pre.push(closer_of(kind)));
            lemma_scan_prefix(t2, p + 2);
            assert(syntax_roles(t2)[p + 1] == syntax_roles(t2.take(p + 2))[p + 1]);
            assert(v2.roles[p + 1] == Role::Close(cursor as usize));
            assert(v2.chars[p + 1] == k);
            assert(mark_applies(v2, k, p + 1));
        },
        None => {
            assert(false);
        },
    }
}

/// Backspace right after an auto-paired opener removes the pair: typing `c`
/// where the editor inserts its closer too, then the clean-up that runs before
/// Backspace, then Backspace itself, gives back the text and cursor from before.
pub proof fn law_backspace_undoes_auto_pair(
    text: Seq<char>,
    cursor: nat,
    cache: Seq<AnnotatedToken>,
    c: char,
)
    requires
        cursor <= text.len(),
        text.len() + 2 <= MAX_BUFFER_CHARS,
        insertion_outcome(text, cursor, tokens_view(cache), c).0.len() == text.len() + 2,
    ensures
        ({
            let (t1, c1, v1) = insertion_outcome(text, cursor, tokens_view(cache), c);
            let (t2, c2) = deletion_outcome(t1, c1, v1);
            after_backspace(t2, c2) == (text, cursor)
        }),
{
    let v0 = tokens_view(cache);
    lemma_auto_pair(text, cursor, v0, c);
    let p = cursor as int;
    let (t1, c1, v1) = insertion_outcome(text, cursor, v0, c);
    assert(delete_applies(v1, p + 1));
    let t2 = t1.remove(p + 1);
    let mid = text.insert(p, c);
    assert(t2 =~= mid);
    assert(mid.remove(p) =~= text);
}

/// Typing the closer right after an auto-paired opener steps over the
/// auto-inserted closer instead of adding another, and the closer then counts
/// as typed.
pub proof fn law_typing_closer_steps_over_auto_closer(
    text: Seq<char>,
    cursor: nat,
    cache: Seq<AnnotatedToken>,
    c: char,
)
    requires
        cursor <= text.len(),
        text.len() + 2 <= MAX_BUFFER_CHARS,
        insertion_outcome(text, cursor, tokens_view(cache), c).0.len() == text.len() + 2,
    ensures
        ({
            let (t1, c1, v1) = insertion_outcome(text, cursor, tokens_view(cache), c);
            let k = t1[cursor + 1int];
            let (t2, c2, v2) = insertion_outcome(t1, c1, v1, k);
            &&& Some(k) == spec_surround_closing_char(c)
            &&& t2 == t1
            &&& c2 == cursor + 2
            &&& !v2.flags[cursor + 1int]
        }),
{
    let v0 = tokens_view(cache);
    lemma_auto_pair(text, cursor, v0, c);
    let p = cursor as int;
    let (t1, c1, v1) = insertion_outcome(text, cursor, v0, c);
    let k = t1[p + 1];
    text.insert_ensures(p, c);
    text.insert(p, c).insert_ensures(p + 1, closing_choice(
        transfer_view(text.insert(p, c), v0),
        c,
        p,
    )->Some_0);
    assert(consume_applies(v1, k, p + 1));
}


/// A fresh parse matches its text.
pub proof fn law_fresh_parse_matches(text: Seq<char>)
    ensures
        cache_matches(crate::dparser::fresh_view(text), text),
{
    lemma_scan_len(text);
}

/// Transferring the marks to a new text keeps each mark on the same character
/// it was on, so the new cache matches the new text.
pub proof fn law_transfer_keeps_marks_on_closers(text: Seq<char>, v: TokensView)
    requires
        marks_on_closers(v),
    ensures
        cache_matches(transfer_view(text, v), text),
{
    lemma_scan_len(text);
    crate::dparser::lemma_alignment(v.chars, text);
    let w = transfer_view(text, v);
    assert forall|i: int| 0 <= i < w.flags.len() && #[trigger] w.flags[i] implies is_closing_char(
        w.chars[i],
    ) by {
        let s = crate::dparser::common_suffix(v.chars, text);
        let p = crate::dparser::common_prefix(v.chars, text);
        if i < p {
            assert(v.flags[i]);
        } else if i >= text.len() - s {
            assert(v.flags[i - text.len() + v.chars.len()]);
        }
    }
}

/// Reparsing an unchanged text keeps every auto-inserted mark.
pub proof fn law_transfer_to_same_text_keeps_marks(v: TokensView)
    requires
        marks_on_closers(v),
        v.roles == syntax_roles(v.chars),
    ensures
        transfer_view(v.chars, v) =~= v,
{
    lemma_suffix_match_self(v.chars, 0);
    let w = transfer_view(v.chars, v);
    assert(w.flags =~= v.flags);
}

proof fn lemma_suffix_match_self(a: Seq<char>, k: nat)
    requires
        k <= a.len(),
    ensures
        crate::dparser::suffix_match(a, a, k) == a.len(),
    decreases a.len() - k,
{
    if k < a.len() {
        lemma_suffix_match_self(a, k + 1);
    }
}

proof fn lemma_suffix_match_exact(a: Seq<char>, b: Seq<char>, k: nat, kk: nat)
    requires
        k <= kk <= a.len(),
        kk <= b.len(),
        forall|j: int| k <= j < kk ==> #[trigger] agree_from_end(a, b, j),
        !(kk < a.len() && kk < b.len() && agree_from_end(a, b, kk as int)),
    ensures
        suffix_match(a, b, k) == kk,
    decreases kk - k,
{
    if k < kk {
        assert(agree_from_end(a, b, k as int));
        lemma_suffix_match_exact(a, b, k + 1, kk);
    }
}

proof fn lemma_prefix_match_exact(a: Seq<char>, b: Seq<char>, lim: nat, k: nat)
    requires
        k <= lim <= a.len(),
        lim <= b.len(),
        forall|j: int| k <= j < lim ==> a[j] == b[j],
    ensures
        prefix_match(a, b, lim, k) == lim,
    decreases lim - k,
{
    if k < lim {
        lemma_prefix_match_exact(a, b, lim, k + 1);
    }
}

/// Inserting `x` at `d` right after a run of `r` copies of `x` is carried over
/// as if `x` had been inserted in front of the run.
#[verifier::rlimit(40)]
proof fn lemma_transfer_insert_run(a: Seq<char>, v: TokensView, d: int, x: char, r: int)
    requires
        v.chars == a,
        v.flags.len() == a.len(),
        0 <= r <= d <= a.len(),
        forall|i: int| d - r <= i < d ==> a[i] == x,
        d - r == 0 || a[d - r - 1] != x,
    ensures
        transfer_view(a.insert(d, x), v).flags == v.flags.insert(d - r, false),
{
    let b = a.insert(d, x);
    a.insert_ensures(d, x);
    v.flags.insert_ensures(d - r, false);
    let m = a.len();
    let kk = (m - d + r) as nat;
    assert forall|j: int| 0 <= j < kk implies #[trigger] agree_from_end(a, b, j) by {
        let i = m - 1 - j;
        if i + 1 > d {
            assert(b[i + 1] == a[i]);
        } else if i + 1 == d {
            assert(a[d - 1] == x);
        } else {
            assert(b[i + 1] == a[i + 1]);
            assert(a[i] == x && a[i + 1] == x);
        }
    }
    if kk < m {
        assert(b[d - r] == x);
    }
    lemma_suffix_match_exact(a, b, 0, kk);
    assert(common_suffix(a, b) == kk);
    lemma_prefix_match_exact(a, b, (d - r) as nat, 0);
    assert(common_prefix(a, b) == d - r);
    let w = transfer_view(b, v);
    assert(w.flags =~= v.flags.insert(d - r, false));
}

/// When the character before the insertion point differs from the inserted
/// one, carrying the marks over an insertion keeps every mark on its
/// character and gives the inserted character none.
pub proof fn law_transfer_exact_after_insertion(a: Seq<char>, v: TokensView, d: int, x: char)
    requires
        v.chars == a,
        v.flags.len() == a.len(),
        0 <= d <= a.len(),
        d == 0 || a[d - 1] != x,
    ensures
        transfer_view(a.insert(d, x), v).flags == v.flags.insert(d, false),
{
    lemma_transfer_insert_run(a, v, d, x, 0);
}

/// When the character before a deleted block differs from the block's last
/// character, carrying the marks over the deletion keeps every other mark on
/// its character.
pub proof fn law_transfer_exact_after_deletion(a: Seq<char>, v: TokensView, d: int, len: int)
    requires
        v.chars == a,
        v.flags.len() == a.len(),
        0 <= d,
        0 < len,
        d + len <= a.len(),
        d == 0 || a[d - 1] != a[d + len - 1],
    ensures
        transfer_view(a.take(d) + a.skip(d + len), v).flags == v.flags.take(d) + v.flags.skip(
            d + len,
        ),
{
    let b = a.take(d) + a.skip(d + len);
    let m = a.len();
    let n = b.len();
    assert(n == m - len);
    let kk = (n - d) as nat;
    assert forall|j: int| 0 <= j < kk implies #[trigger] agree_from_end(a, b, j) by {
        assert(b[n - 1 - j] == a[n - 1 - j + len]);
    }
    if d > 0 {
        assert(b[d - 1] == a[d - 1]);
        assert(!agree_from_end(a, b, kk as int));
    }
    lemma_suffix_match_exact(a, b, 0, kk);
    assert(common_suffix(a, b) == kk);
    assert forall|j: int| 0 <= j < d implies a[j] == b[j] by {}
    lemma_prefix_match_exact(a, b, d as nat, 0);
    assert(common_prefix(a, b) == d);
    let w = transfer_view(b, v);
    assert(w.flags =~= v.flags.take(d) + v.flags.skip(d + len));
}

/// After the clean-up before Backspace and Backspace itself, reparsing with the
/// marks carried over keeps every mark of the characters that stay, unless the
/// character before the deleted ones equals the last deleted one (then lining
/// the texts up by content cannot tell them apart).
pub proof fn law_backspace_keeps_other_marks(text: Seq<char>, cursor: nat, cache: TokensView)
    requires
        cache_matches(cache, text),
        0 < cursor <= text.len(),
    ensures
        ({
            let (t2, c2) = deletion_outcome(text, cursor, cache);
            let (t3, c3) = after_backspace(t2, c2);
            let w = transfer_view(t3, cache);
            &&& t2 == text && (cursor == 1 || text[cursor - 2] != text[cursor - 1]) ==> w.flags
                == cache.flags.remove(cursor - 1)
            &&& t2 != text && (cursor == 1 || text[cursor - 2] != text[cursor as int])
                ==> w.flags == cache.flags.remove(cursor as int).remove(cursor - 1)
        }),
{
    let p = cursor as int;
    let (t2, c2) = deletion_outcome(text, cursor, cache);
    if t2 == text {
        assert(text.remove(p - 1) =~= text.take(p - 1) + text.skip(p));
        if p == 1 || text[p - 2] != text[p - 1] {
            law_transfer_exact_after_deletion(text, cache, p - 1, 1);
            assert(cache.flags.remove(p - 1) =~= cache.flags.take(p - 1) + cache.flags.skip(p));
        }
    } else {
        assert(t2 == text.remove(p) && c2 == cursor);
        assert(text.remove(p).remove(p - 1) =~= text.take(p - 1) + text.skip(p + 1));
        if p == 1 || text[p - 2] != text[p] {
            law_transfer_exact_after_deletion(text, cache, p - 1, 2);
            assert(cache.flags.remove(p).remove(p - 1) =~= cache.flags.take(p - 1)
                + cache.flags.skip(p + 1));
        }
    }
}

/// Typing keeps its guarantees whenever the token cache matches the buffer:
/// the cache keeps matching, the text changes in one of the three ways of
/// `typing_guarantees`, and, unless the character before the cursor is the
/// typed one, every earlier auto-inserted mark stays on its character.
pub proof fn law_typing_guarantees(text: Seq<char>, cursor: nat, cache: TokensView, c: char)
    requires
        cursor <= text.len(),
        text.len() + 2 <= MAX_BUFFER_CHARS,
    ensures
        cache_matches(cache, text) ==> typing_guarantees(text, cursor, cache, c),
{
    if cache_matches(cache, text) {
        let p = cursor as int;
        text.insert_ensures(p, c);
        if consume_applies(cache, c, p) {
            let v = with_flag(cache, p, false);
            assert forall|i: int|
                0 <= i < v.flags.len() && #[trigger] v.flags[i] implies is_closing_char(
                v.chars[i],
            ) by {
                assert(cache.flags[i]);
            }
        } else {
            let t1 = text.insert(p, c);
            law_transfer_keeps_marks_on_closers(t1, cache);
            let v1 = transfer_view(t1, cache);
            let unambiguous = p == 0 || text[p - 1] != c;
            if unambiguous {
                law_transfer_exact_after_insertion(text, cache, p, c);
            }
            match closing_choice(v1, c, p) {
                Some(k) => {
                    lemma_auto_pair(text, cursor, cache, c);
                    let t2 = t1.insert(p + 1, k);
                    t1.insert_ensures(p + 1, k);
                    law_transfer_keeps_marks_on_closers(t2, v1);
                    let v2 = transfer_view(t2, v1);
                    let v3 = with_flag(v2, p + 1, true);
                    assert forall|i: int|
                        0 <= i < v3.flags.len() && #[trigger] v3.flags[i] implies is_closing_char(
                        v3.chars[i],
                    ) by {
                        if i != p + 1 {
                            assert(v2.flags[i]);
                        }
                    }
                    if unambiguous {
                        if c != k {
                            lemma_transfer_insert_run(t1, v1, p + 1, k, 0);
                        } else {
                            lemma_transfer_insert_run(t1, v1, p + 1, k, 1);
                            v1.flags.insert_ensures(p, false);
                            v1.flags.insert_ensures(p + 1, false);
                            assert(v1.flags.insert(p, false) =~= v1.flags.insert(p + 1, false));
                        }
                        v1.flags.insert_ensures(p + 1, true);
                        assert(v3.flags =~= v1.flags.insert(p + 1, true));
                    }
                },
                None => {},
            }
        }
    }
}

/// Typing a character that neither opens nor closes a pair just inserts it.
pub proof fn law_plain_char_is_inserted(text: Seq<char>, cursor: nat, cache: TokensView, c: char)
    requires
        cursor <= text.len(),
        text.len() + 2 <= MAX_BUFFER_CHARS,
        marks_on_closers(cache),
        spec_surround_closing_char(c) is None,
        !is_closing_char(c),
    ensures
        insertion_outcome(text, cursor, cache, c).0 == text.insert(cursor as int, c),
        insertion_outcome(text, cursor, cache, c).1 == cursor + 1,
{
    let p = cursor as int;
    if consume_applies(cache, c, p) {
        assert(cache.flags[p]);
        assert(false);
    }
    let t1 = text.insert(p, c);
    text.insert_ensures(p, c);
    let v1 = transfer_view(t1, cache);
    if closing_choice(v1, c, p) is Some {
        lemma_scan_len(t1);
        lemma_scan_describes(t1);
        assert(role_describes(t1, syntax_roles(t1), p));
        assert(false);
    }
}

/// The closer that the clean-up before Backspace deletes as auto-inserted is
/// the one that pairs with the character before the cursor.
pub proof fn law_deleted_closer_pairs_with_opener(text: Seq<char>, cursor: nat, cache: TokensView)
    requires
        text.len() <= usize::MAX,
        cache_matches(cache, text),
        delete_applies(cache, cursor as int),
    ensures
        spec_surround_closing_char(text[cursor - 1]) == Some(text[cursor as int]),
        deletion_outcome(text, cursor, cache) == (text.remove(cursor as int), cursor),
{
    lemma_scan_describes(text);
    assert(role_describes(text, syntax_roles(text), cursor as int));
    assert(role_describes(text, syntax_roles(text), cursor - 1));
}

/// Backspace right after typing a character removes it again.
pub proof fn law_backspace_undoes_insert(text: Seq<char>, cursor: nat, c: char)
    requires
        cursor <= text.len(),
    ensures
        after_backspace(text.insert(cursor as int, c), cursor + 1) == (text, cursor),
{
    assert(text.insert(cursor as int, c).remove(cursor as int) =~= text);
}


/// Parsing is incremental: the roles of the first `n` characters do not depend
/// on what follows them.
pub proof fn law_parse_is_incremental(text: Seq<char>, n: int)
    requires
        0 <= n <= text.len(),
    ensures
        syntax_roles(text).take(n) == syntax_roles(text.take(n)),
{
    lemma_scan_prefix(text, n);
}

/// The parse is well nested: every closer comes after the opener it closes,
/// is that opener's closing character, and every opener is a pairing
/// character whose surround closer is the closer of its construct.
pub proof fn law_parse_is_well_nested(text: Seq<char>)
    requires
        text.len() <= usize::MAX,
    ensures
        roles_describe(text, syntax_roles(text)),
{
    lemma_scan_describes(text);
}

/// A character that closes a construct when typed is never paired with
/// another closer: typing it either steps over an auto-inserted one or
/// inserts just that character.
pub proof fn law_typed_closer_is_not_paired(
    text: Seq<char>,
    cursor: nat,
    cache: TokensView,
    c: char,
)
    requires
        cursor <= text.len(),
        text.len() + 2 <= MAX_BUFFER_CHARS,
        syntax_roles(text.insert(cursor as int, c))[cursor as int] is Close,
    ensures
        insertion_outcome(text, cursor, cache, c).0.len() <= text.len() + 1,
{
    text.insert_ensures(cursor as int, c);
}


/// The closing character for surrounding a selection: `(`, `[` and `{` pair
/// with `)`, `]` and `}`, the three quote characters pair with themselves,
/// and no other character pairs with anything.
pub proof fn law_surround_closing_chars(c: char)
    ensures
        spec_surround_closing_char('(') == Some(')'),
        spec_surround_closing_char('[') == Some(']'),
        spec_surround_closing_char('{') == Some('}'),
        spec_surround_closing_char('"') == Some('"'),
        spec_surround_closing_char('\'') == Some('\''),
        spec_surround_closing_char('`') == Some('`'),
        c != '(' && c != '[' && c != '{' && c != '"' && c != '\'' && c != '`'
            ==> spec_surround_closing_char(c) is None,
{
}

/// Typing a character over an auto-inserted copy of it steps over it, wherever
/// its opener is: the text stays, the cursor moves past it, and only its mark
/// is cleared.
pub proof fn law_typing_marked_closer_steps_over(
    text: Seq<char>,
    cursor: nat,
    cache: TokensView,
    c: char,
)
    requires
        cursor < cache.chars.len(),
        cache.flags[cursor as int],
        cache.chars[cursor as int] == c,
    ensures
        ({
            let (t, cur, v) = insertion_outcome(text, cursor, cache, c);
            &&& t == text
            &&& cur == (if cursor < text.len() {
                cursor + 1
            } else {
                cursor
            })
            &&& v.chars == cache.chars
            &&& v.roles == cache.roles
            &&& v.flags == cache.flags.update(cursor as int, false)
        }),
{
}

/// The clean-up before Backspace deletes at most the character right after
/// the cursor, and only a closing character that pairs with the character
/// right before the cursor: one carrying the auto-inserted mark, or a `)`
/// after a `(`. The cursor never moves.
pub proof fn law_cleanup_deletes_only_paired_closers(
    text: Seq<char>,
    cursor: nat,
    cache: TokensView,
)
    requires
        cache_matches(cache, text),
        cursor <= text.len(),
        text.len() <= usize::MAX,
    ensures
        ({
            let (t2, c2) = deletion_outcome(text, cursor, cache);
            &&& c2 == cursor
            &&& t2 != text ==> {
                &&& 0 < cursor < text.len()
                &&& t2 == text.remove(cursor as int)
                &&& {
                    let (o, k) = (text[cursor - 1], text[cursor as int]);
                    ||| o == '(' && k == ')'
                    ||| o == '[' && k == ']'
                    ||| o == '{' && k == '}'
                    ||| o == '"' && k == '"'
                    ||| o == '\'' && k == '\''
                    ||| o == '`' && k == '`'
                }
                &&& cache.flags[cursor as int] || (text[cursor - 1] == '(' && text[cursor as int]
                    == ')')
            }
        }),
{
    let p = cursor as int;
    if delete_applies(cache, p) {
        lemma_scan_describes(text);
        assert(role_describes(text, syntax_roles(text), p));
        assert(role_describes(text, syntax_roles(text), p - 1));
    }
}

/// Inserting a block `w` at `d` keeps every old mark on its character and
/// gives the inserted characters none, whatever the block's length, when the
/// character before `d` differs from the block's last character.
pub proof fn law_transfer_exact_after_block_insertion(
    a: Seq<char>,
    v: TokensView,
    d: int,
    w: Seq<char>,
)
    requires
        v.chars == a,
        v.flags.len() == a.len(),
        0 <= d <= a.len(),
        w.len() > 0,
        d == 0 || a[d - 1] != w.last(),
    ensures
        transfer_view(a.take(d) + w + a.skip(d), v).flags == v.flags.take(d) + Seq::new(
            w.len(),
            |i: int| false,
        ) + v.flags.skip(d),
{
    let b = a.take(d) + w + a.skip(d);
    let m = a.len();
    let l = w.len();
    let n = b.len();
    assert(n == m + l);
    let kk = (m - d) as nat;
    assert forall|j: int| 0 <= j < kk implies #[trigger] agree_from_end(a, b, j) by {
        assert(b[n - 1 - j] == a[m - 1 - j]);
    }
    if d > 0 {
        assert(b[d + l - 1] == w.last());
        assert(!agree_from_end(a, b, kk as int));
    }
    lemma_suffix_match_exact(a, b, 0, kk);
    assert(common_suffix(a, b) == kk);
    assert forall|j: int| 0 <= j < d implies a[j] == b[j] by {}
    lemma_prefix_match_exact(a, b, d as nat, 0);
    assert(common_prefix(a, b) == d);
    let t = transfer_view(b, v);
    assert(t.flags =~= v.flags.take(d) + Seq::new(l, |i: int| false) + v.flags.skip(d));
}

/// The scanner's state is outside quotes and not after a backslash.
pub open spec fn unquoted(st: ScanState) -> bool {
    !top_is(st, Construct::SingleQuote) && !top_is(st, Construct::DoubleQuote) && !st.escaped
}

/// `n` blanks.
pub open spec fn blanks(n: nat) -> Seq<char> {
    Seq::new(n, |i: int| ' ')
}

/// Blanks keep the scanner outside quotes and keep whether the next word is a
/// command name.
proof fn lemma_scan_blanks(t: Seq<char>, n: nat)
    requires
        unquoted(scan(t).1),
        t.len() + n <= usize::MAX,
    ensures
        unquoted(scan(t + blanks(n)).1),
        scan(t + blanks(n)).1.command_position == scan(t).1.command_position,
    decreases n,
{
    if n == 0 {
        assert(t + blanks(0) =~= t);
    } else {
        lemma_scan_blanks(t, (n - 1) as nat);
        let u = t + blanks((n - 1) as nat);
        assert(t + blanks(n) =~= u.push(' '));
        let u2 = u.push(' ');
        assert(u2.drop_last() =~= u);
        reveal(step);
    }
}

/// One unquoted character `c` after `t`.
proof fn lemma_scan_one(t: Seq<char>, c: char)
    requires
        t.len() < usize::MAX,
    ensures
        scan(t.push(c)).1 == step(scan(t).1, t.len() as usize, c).1,
        syntax_roles(t.push(c))[t.len() as int] == step(scan(t).1, t.len() as usize, c).0,
{
    assert(t.push(c).drop_last() =~= t);
    lemma_scan_len(t);
}

/// After a command separator (`|`, `;`, `&`, newline) and any blanks, outside
/// quotes, the next word is a command name, so `[` there is the test command
/// and opens no bracket pair.
pub proof fn law_bracket_after_command_separator_is_plain(t: Seq<char>, sep: char, n: nat)
    requires
        sep == '|' || sep == ';' || sep == '&' || sep == '\n',
        unquoted(scan(t).1),
        t.len() + n + 2 <= usize::MAX,
    ensures
        ({
            let u = t.push(sep) + blanks(n);
            syntax_roles(u.push('['))[u.len() as int] == Role::Plain
        }),
{
    lemma_scan_one(t, sep);
    reveal(step);
    let t1 = t.push(sep);
    assert(unquoted(scan(t1).1) && scan(t1).1.command_position);
    lemma_scan_blanks(t1, n);
    let u = t1 + blanks(n);
    lemma_scan_one(u, '[');
}

/// After a word character and any blanks, outside quotes, `[` stands in
/// argument position and opens a bracket pair.
pub proof fn law_bracket_after_argument_opens(t: Seq<char>, x: char, n: nat)
    requires
        ('a' <= x <= 'z') || ('A' <= x <= 'Z') || ('0' <= x <= '9') || x == '-',
        unquoted(scan(t).1),
        t.len() + n + 2 <= usize::MAX,
    ensures
        ({
            let u = t.push(x) + blanks(n);
            syntax_roles(u.push('['))[u.len() as int] == Role::Open(Construct::Bracket)
        }),
{
    lemma_scan_one(t, x);
    reveal(step);
    let t1 = t.push(x);
    assert(unquoted(scan(t1).1) && !scan(t1).1.command_position);
    lemma_scan_blanks(t1, n);
    let u = t1 + blanks(n);
    lemma_scan_one(u, '[');
}

} // verus!
