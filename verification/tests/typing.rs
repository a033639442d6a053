use autoclose::auto_close::{delete_auto_inserted_closing_if_present, handle_char_insertion, App};
use autoclose::dparser::{AnnotatedToken, DParser};
use autoclose::text_buffer::TextBuffer;

fn setup(text: &str) -> (TextBuffer, Vec<AnnotatedToken>) {
    let buffer = TextBuffer::new(text);
    let tokens = DParser::parse_and_annotate(buffer.buffer());
    (buffer, tokens)
}

fn backspace(buffer: &mut TextBuffer, tokens: &mut Vec<AnnotatedToken>) {
    delete_auto_inserted_closing_if_present(buffer, tokens);
    buffer.delete_left();
    *tokens = DParser::parse_and_transfer_auto_inserted_flags(buffer.buffer(), tokens);
}

#[test]
fn plain_char_is_inserted_as_is() {
    let (mut buffer, mut tokens) = setup("echo");
    handle_char_insertion(&mut buffer, &mut tokens, 'x');
    assert_eq!(buffer.buffer(), "echox");
    assert_eq!(buffer.cursor_pos(), 5);
    assert!(tokens.iter().all(|t| !t.auto_inserted));
}

#[test]
fn backspace_after_auto_paren_restores_buffer() {
    let (mut buffer, mut tokens) = setup("echo ");
    handle_char_insertion(&mut buffer, &mut tokens, '(');
    assert_eq!(buffer.buffer(), "echo ()");
    backspace(&mut buffer, &mut tokens);
    assert_eq!(buffer.buffer(), "echo ");
    assert_eq!(buffer.cursor_pos(), 5);
}

#[test]
fn typing_closer_steps_over_auto_paren() {
    let (mut buffer, mut tokens) = setup("");
    handle_char_insertion(&mut buffer, &mut tokens, '(');
    handle_char_insertion(&mut buffer, &mut tokens, ')');
    assert_eq!(buffer.buffer(), "()");
    assert_eq!(buffer.cursor_pos(), 2);
    assert!(!tokens[1].auto_inserted);
    // The closer now counts as typed: a second `)` is inserted.
    handle_char_insertion(&mut buffer, &mut tokens, ')');
    assert_eq!(buffer.buffer(), "())");
}

#[test]
fn closer_typed_over_a_typed_closer_is_inserted() {
    let (mut buffer, mut tokens) = setup("()");
    buffer.move_left();
    handle_char_insertion(&mut buffer, &mut tokens, ')');
    assert_eq!(buffer.buffer(), "())");
    assert_eq!(buffer.cursor_pos(), 2);
}

#[test]
fn parameter_expansion_brace_autocloses() {
    let (mut buffer, mut tokens) = setup("echo $");
    handle_char_insertion(&mut buffer, &mut tokens, '{');
    assert_eq!(buffer.buffer(), "echo ${}");
    assert_eq!(buffer.cursor_pos(), 7);
}

#[test]
fn backtick_autocloses() {
    let (mut buffer, mut tokens) = setup("echo ");
    handle_char_insertion(&mut buffer, &mut tokens, '`');
    assert_eq!(buffer.buffer(), "echo ``");
    assert_eq!(buffer.cursor_pos(), 6);
}

#[test]
fn paren_inside_single_quotes_is_literal() {
    let (mut buffer, mut tokens) = setup("echo 'a");
    handle_char_insertion(&mut buffer, &mut tokens, '(');
    assert_eq!(buffer.buffer(), "echo 'a(");
    assert_eq!(buffer.cursor_pos(), 8);
}

#[test]
fn escaped_quote_does_not_autoclose() {
    let (mut buffer, mut tokens) = setup("echo \\");
    handle_char_insertion(&mut buffer, &mut tokens, '"');
    assert_eq!(buffer.buffer(), "echo \\\"");
}

#[test]
fn quote_typed_before_a_word_closed_later_is_not_paired() {
    let (mut buffer, mut tokens) = setup("echo abc\"");
    for _ in 0..4 {
        buffer.move_left();
    }
    handle_char_insertion(&mut buffer, &mut tokens, '"');
    assert_eq!(buffer.buffer(), "echo \"abc\"");
    assert_eq!(buffer.cursor_pos(), 6);
}

#[test]
fn non_ascii_text_before_cursor() {
    let (mut buffer, mut tokens) = setup("echo é ");
    handle_char_insertion(&mut buffer, &mut tokens, '"');
    assert_eq!(buffer.buffer(), "echo é \"\"");
    assert_eq!(buffer.cursor_pos(), 8);
    assert_eq!(buffer.cursor_byte_pos(), 9);
}

#[test]
fn delete_helper_fallback_removes_typed_paren_pair() {
    let (mut buffer, tokens) = setup("()");
    buffer.move_left();
    delete_auto_inserted_closing_if_present(&mut buffer, &tokens);
    assert_eq!(buffer.buffer(), "(");
    assert_eq!(buffer.cursor_pos(), 1);
}

#[test]
fn delete_helper_keeps_other_pairs() {
    let (mut buffer, tokens) = setup("[]");
    buffer.move_left();
    delete_auto_inserted_closing_if_present(&mut buffer, &tokens);
    assert_eq!(buffer.buffer(), "[]");
    let (mut at_start, start_tokens) = setup("()");
    at_start.move_to_start();
    delete_auto_inserted_closing_if_present(&mut at_start, &start_tokens);
    assert_eq!(at_start.buffer(), "()");
}

#[test]
fn app_methods_type_and_delete() {
    let mut app = App::new("echo ");
    app.handle_char_insertion('"');
    assert_eq!(app.buffer.buffer(), "echo \"\"");
    assert_eq!(app.buffer.cursor_byte_pos(), 6);
    app.delete_auto_inserted_closing_if_present();
    assert_eq!(app.buffer.buffer(), "echo \"");
    assert_eq!(app.buffer.cursor_byte_pos(), 6);
}

#[test]
fn typed_closer_after_auto_closer_is_not_told_apart_from_it() {
    // Lining the texts up by content cannot tell which of two neighbouring `)`
    // is new, so the mark ends on the last one.
    let (mut buffer, mut tokens) = setup("");
    handle_char_insertion(&mut buffer, &mut tokens, '(');
    assert_eq!(buffer.buffer(), "()");
    buffer.move_to_end();
    handle_char_insertion(&mut buffer, &mut tokens, ')');
    assert_eq!(buffer.buffer(), "())");
    let flags: Vec<bool> = tokens.iter().map(|t| t.auto_inserted).collect();
    assert_eq!(flags, vec![false, false, true]);
    buffer.move_left();
    buffer.move_left();
    handle_char_insertion(&mut buffer, &mut tokens, ')');
    assert_eq!(buffer.buffer(), "()))");
    assert_eq!(buffer.cursor_pos(), 2);
}

#[test]
fn typing_inside_auto_pairs_keeps_their_marks() {
    let (mut buffer, mut tokens) = setup("");
    handle_char_insertion(&mut buffer, &mut tokens, '(');
    handle_char_insertion(&mut buffer, &mut tokens, '(');
    handle_char_insertion(&mut buffer, &mut tokens, 'x');
    assert_eq!(buffer.buffer(), "((x))");
    let flags: Vec<bool> = tokens.iter().map(|t| t.auto_inserted).collect();
    assert_eq!(flags, vec![false, false, false, true, true]);
    // Backspace over `x` keeps the marks of both closers.
    backspace(&mut buffer, &mut tokens);
    assert_eq!(buffer.buffer(), "(())");
    let flags: Vec<bool> = tokens.iter().map(|t| t.auto_inserted).collect();
    assert_eq!(flags, vec![false, false, true, true]);
    // Backspace on the inner `(` removes its pair and keeps the outer mark.
    backspace(&mut buffer, &mut tokens);
    assert_eq!(buffer.buffer(), "()");
    let flags: Vec<bool> = tokens.iter().map(|t| t.auto_inserted).collect();
    assert_eq!(flags, vec![false, true]);
}

#[test]
fn transfer_keeps_marks_after_an_insertion() {
    let mut toks = DParser::parse_and_annotate("(())");
    assert!(DParser::mark_auto_inserted_closing(&mut toks, ')', 2));
    assert!(DParser::mark_auto_inserted_closing(&mut toks, ')', 3));
    let after = DParser::parse_and_transfer_auto_inserted_flags("(()))", &toks);
    let flags: Vec<bool> = after.iter().map(|t| t.auto_inserted).collect();
    assert_eq!(flags, vec![false, false, false, true, true]);
}
