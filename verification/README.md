# autoclose

Auto-pairing of brackets and quotes for a shell command-line editor, verified
with Verus.

- `src/text_buffer.rs`: the edited line, with a cursor between characters and
  its UTF-8 byte offset.
- `src/dparser.rs`: a left-to-right scanner of shell syntax that gives each
  character a role (plain, opener of a construct, closer of the opener at a
  given index), and the auto-inserted marks that the editor keeps on closers it
  inserted itself, carried across edits by lining up the old and new text
  (longest common suffix, then prefix). When an edit touches a run of equal
  characters, the texts alone cannot say which of them changed, and a mark can
  move to a neighbouring equal character; `src/laws.rs` states when the marks
  are carried exactly.
- `src/auto_close.rs`: typing a character (pairing an opener with its closer,
  or stepping over an auto-inserted closer), the clean-up before Backspace, and
  the closing character of each pairing character.
- `src/laws.rs`: properties of the whole, proved: Backspace right after an
  auto-pair removes the pair, typing the closer steps over the auto-inserted
  one, the token cache keeps matching the buffer, and more.

Positions in the scanner and the token cache are character indices.
