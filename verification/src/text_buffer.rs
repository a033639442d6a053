use vstd::prelude::*;

verus! {

/// The most characters a buffer holds, so that byte offsets always fit in `usize`.
pub const MAX_BUFFER_CHARS: usize = usize::MAX / 4;

/// Number of bytes that `c` takes in UTF-8.
pub open spec fn utf8_width(c: char) -> nat {
    let v = c as u32;
    if v < 0x80 {
        1
    } else if v < 0x800 {
        2
    } else if v < 0x10000 {
        3
    } else {
        4
    }
}

/// Number of bytes that the characters `s` take in UTF-8.
pub open spec fn utf8_len(s: Seq<char>) -> nat
    decreases s.len(),
{
    if s.len() == 0 {
        0
    } else {
        utf8_len(s.drop_last()) + utf8_width(s.last())
    }
}

/// Text and cursor after a Backspace at `cursor`.
pub open spec fn after_backspace(text: Seq<char>, cursor: nat) -> (Seq<char>, nat) {
    if cursor > 0 {
        (text.remove(cursor - 1), (cursor - 1) as nat)
    } else {
        (text, cursor)
    }
}

/// Appends `c` to `s`: a call of `String::push`, which std documents as
/// appending the given char to the end of the string.
#[verifier::external_body]
fn string_push(s: &mut String, c: char)
    ensures
        final(s)@ == old(s)@.push(c),
{
    s.push(c);
}

/// The characters of `s`, in order.
pub fn str_to_chars(s: &str) -> (r: Vec<char>)
    ensures
        r@ == s@,
{
    let mut out: Vec<char> = Vec::new();
    for c in it: s.chars()
        invariant
            out@ == it.seq().take(it.index() as int),
            it.seq() == s@,
    {
        out.push(c);
    }
    out
}

/// A `String` holding exactly the characters `v`.
pub fn chars_to_string(v: &Vec<char>) -> (r: String)
    ensures
        r@ == v@,
{
    let mut s = String::new();
    let mut i: usize = 0;
    while i < v.len()
        invariant
            i <= v.len(),
            s@ == v@.take(i as int),
        decreases v.len() - i,
    {
        string_push(&mut s, v[i]);
        assert(v@.take(i + 1) == v@.take(i as int).push(v@[i as int]));
        i += 1;
    }
    assert(v@.take(v.len() as int) == v@);
    s
}


/// Every character takes at most four bytes in UTF-8.
pub proof fn lemma_utf8_len_bound(s: Seq<char>)
    ensures
        s.len() <= utf8_len(s) <= 4 * s.len(),
    decreases s.len(),
{
    if s.len() > 0 {
        lemma_utf8_len_bound(s.drop_last());
    }
}

/// The UTF-8 width of one character, as std's `char::len_utf8` gives it.
pub fn char_utf8_width(c: char) -> (w: usize)
    ensures
        w == utf8_width(c),
{
    let v = c as u32;
    if v < 0x80 {
        1
    } else if v < 0x800 {
        2
    } else if v < 0x10000 {
        3
    } else {
        4
    }
}

/// An editable line of text with a cursor between characters.
///
/// The cursor is a character index: 0 is before the first character,
/// `text().len()` after the last.
pub struct TextBuffer {
    chars: Vec<char>,
    rendered: String,
    cursor: usize,
}

impl TextBuffer {
    /// The characters of the buffer.
    pub closed spec fn text(&self) -> Seq<char> {
        self.chars@
    }

    /// The cursor, as the number of characters before it.
    pub closed spec fn cursor(&self) -> nat {
        self.cursor as nat
    }

    /// Every buffer is well formed: the cursor lies within the text, the text is
    /// within the size limit, and the rendered string matches the characters.
    #[verifier::type_invariant]
    spec fn well_formed(&self) -> bool {
        &&& self.cursor <= self.chars@.len()
        &&& self.chars@.len() <= MAX_BUFFER_CHARS
        &&& self.rendered@ == self.chars@
    }

    fn from_parts(chars: Vec<char>, cursor: usize) -> (r: TextBuffer)
        requires
            cursor <= chars@.len(),
            chars@.len() <= MAX_BUFFER_CHARS,
        ensures
            r.text() == chars@,
            r.cursor() == cursor,
    {
        let rendered = chars_to_string(&chars);
        TextBuffer { chars, rendered, cursor }
    }

    /// Takes the characters and the cursor out of `self`, leaving it empty.
    fn take_parts(&mut self) -> (r: (Vec<char>, usize))
        ensures
            r.0@ == old(self).text(),
            r.1 == old(self).cursor(),
            r.1 <= r.0@.len(),
            r.0@.len() <= MAX_BUFFER_CHARS,
    {
        let mut taken = TextBuffer::from_parts(Vec::new(), 0);
        core::mem::swap(&mut taken, self);
        proof {
            use_type_invariant(&taken);
        }
        let TextBuffer { chars, rendered: _, cursor } = taken;
        (chars, cursor)
    }

    /// A buffer holding `s`, with the cursor at its end.
    pub fn new(s: &str) -> (r: TextBuffer)
        requires
            s@.len() <= MAX_BUFFER_CHARS,
        ensures
            r.text() == s@,
            r.cursor() == s@.len(),
    {
        let chars = str_to_chars(s);
        let n = chars.len();
        TextBuffer::from_parts(chars, n)
    }

    /// The text of the buffer.
    pub fn buffer(&self) -> (r: &str)
        ensures
            r@ == self.text(),
    {
        proof {
            use_type_invariant(self);
        }
        self.rendered.as_str()
    }

    /// The characters of the buffer.
    pub fn chars(&self) -> (r: &Vec<char>)
        ensures
            r@ == self.text(),
    {
        &self.chars
    }

    /// The number of characters in the buffer.
    pub fn char_count(&self) -> (r: usize)
        ensures
            r == self.text().len(),
            r <= MAX_BUFFER_CHARS,
            self.cursor() <= r,
    {
        proof {
            use_type_invariant(self);
        }
        self.chars.len()
    }

    /// The cursor as a character index.
    pub fn cursor_pos(&self) -> (r: usize)
        ensures
            r == self.cursor(),
            r <= self.text().len(),
            self.text().len() <= MAX_BUFFER_CHARS,
    {
        proof {
            use_type_invariant(self);
        }
        self.cursor
    }

    /// The cursor as a byte offset into the UTF-8 text.
    pub fn cursor_byte_pos(&self) -> (r: usize)
        ensures
            r == utf8_len(self.text().take(self.cursor() as int)),
    {
        proof {
            use_type_invariant(self);
        }
        let mut total: usize = 0;
        let mut i: usize = 0;
        while i < self.cursor
            invariant
                self.cursor <= self.chars@.len() <= MAX_BUFFER_CHARS,
                i <= self.cursor,
                total == utf8_len(self.chars@.take(i as int)),
            decreases self.cursor - i,
        {
            proof {
                lemma_utf8_len_bound(self.chars@.take(i as int));
            }
            let w = char_utf8_width(self.chars[i]);
            assert(self.chars@.take(i + 1).drop_last() == self.chars@.take(i as int));
            total = total + w;
            i = i + 1;
        }
        total
    }

    /// The character just before the cursor, if any.
    pub fn char_before_cursor(&self) -> (r: Option<char>)
        ensures
            r == (if self.cursor() > 0 {
                Some(self.text()[self.cursor() - 1])
            } else {
                None::<char>
            }),
    {
        proof {
            use_type_invariant(self);
        }
        if self.cursor > 0 {
            Some(self.chars[self.cursor - 1])
        } else {
            None
        }
    }

    /// The character just after the cursor, if any.
    pub fn char_after_cursor(&self) -> (r: Option<char>)
        ensures
            r == (if self.cursor() < self.text().len() {
                Some(self.text()[self.cursor() as int])
            } else {
                None::<char>
            }),
    {
        if self.cursor < self.chars.len() {
            Some(self.chars[self.cursor])
        } else {
            None
        }
    }

    /// Inserts `c` at the cursor and moves the cursor past it.
    pub fn insert_char(&mut self, c: char)
        requires
            old(self).text().len() < MAX_BUFFER_CHARS,
        ensures
            final(self).text() == old(self).text().insert(old(self).cursor() as int, c),
            final(self).cursor() == old(self).cursor() + 1,
    {
        let (mut chars, cursor) = self.take_parts();
        chars.insert(cursor, c);
        *self = TextBuffer::from_parts(chars, cursor + 1);
    }

    /// Moves the cursor one character left, unless it is at the start.
    pub fn move_left(&mut self)
        ensures
            final(self).text() == old(self).text(),
            final(self).cursor() == (if old(self).cursor() > 0 {
                (old(self).cursor() - 1) as nat
            } else {
                0
            }),
    {
        proof {
            use_type_invariant(&*self);
        }
        if self.cursor > 0 {
            self.cursor = self.cursor - 1;
        }
    }

    /// Moves the cursor one character right, unless it is at the end.
    pub fn move_right(&mut self)
        ensures
            final(self).text() == old(self).text(),
            final(self).cursor() == (if old(self).cursor() < old(self).text().len() {
                old(self).cursor() + 1
            } else {
                old(self).cursor()
            }),
    {
        proof {
            use_type_invariant(&*self);
        }
        if self.cursor < self.chars.len() {
            self.cursor = self.cursor + 1;
        }
    }

    /// Moves the cursor to the start of the text.
    pub fn move_to_start(&mut self)
        ensures
            final(self).text() == old(self).text(),
            final(self).cursor() == 0,
    {
        proof {
            use_type_invariant(&*self);
        }
        self.cursor = 0;
    }

    /// Moves the cursor to the end of the text.
    pub fn move_to_end(&mut self)
        ensures
            final(self).text() == old(self).text(),
            final(self).cursor() == old(self).text().len(),
    {
        proof {
            use_type_invariant(&*self);
        }
        self.cursor = self.chars.len();
    }

    /// Deletes the character before the cursor (Backspace), if any.
    pub fn delete_left(&mut self)
        ensures
            (final(self).text(), final(self).cursor()) == after_backspace(
                old(self).text(),
                old(self).cursor(),
            ),
    {
        if self.cursor > 0 {
            let (mut chars, cursor) = self.take_parts();
            chars.remove(cursor - 1);
            *self = TextBuffer::from_parts(chars, cursor - 1);
        }
    }

    /// Deletes the character after the cursor (Delete), if any.
    pub fn delete_right(&mut self)
        ensures
            final(self).cursor() == old(self).cursor(),
            old(self).cursor() < old(self).text().len() ==> final(self).text()
                == old(self).text().remove(old(self).cursor() as int),
            old(self).cursor() >= old(self).text().len() ==> final(self).text()
                == old(self).text(),
    {
        if self.cursor < self.chars.len() {
            let (mut chars, cursor) = self.take_parts();
            chars.remove(cursor);
            *self = TextBuffer::from_parts(chars, cursor);
        }
    }
}

} // verus!
