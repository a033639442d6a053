use autoclose::auto_close::{delete_auto_inserted_closing_if_present, handle_char_insertion};
use autoclose::dparser::{AnnotatedToken, DParser};
use autoclose::text_buffer::TextBuffer;

fn parsed(input: &str) -> Vec<AnnotatedToken> {
    DParser::parse_and_annotate(input)
}

#[test]
fn parser_driven_quote_autoclose_uses_post_insertion_buffer() {
    let mut buffer = TextBuffer::new("echo ");
    let mut tokens = parsed(buffer.buffer());

    handle_char_insertion(&mut buffer, &mut tokens, '"');

    assert_eq!(buffer.buffer(), "echo \"\"");
    assert_eq!(buffer.cursor_byte_pos(), 6);
}

#[test]
fn parser_driven_quote_does_not_autoclose_when_it_closed_an_existing_pair() {
    let mut buffer = TextBuffer::new("echo \"hello");
    let mut tokens = parsed(buffer.buffer());

    handle_char_insertion(&mut buffer, &mut tokens, '"');

    assert_eq!(buffer.buffer(), "echo \"hello\"");
    assert_eq!(buffer.cursor_byte_pos(), 12);
}

#[test]
fn parser_driven_dollar_expansion_inside_double_quotes_still_autocloses() {
    let mut buffer = TextBuffer::new("\"$\"");
    let mut tokens = parsed(buffer.buffer());
    buffer.move_left();

    handle_char_insertion(&mut buffer, &mut tokens, '(');

    assert_eq!(buffer.buffer(), "\"$()\"");
    assert_eq!(buffer.cursor_byte_pos(), 3);
}

#[test]
fn consume_overwritten_auto_inserted_closing_clears_flag_without_reparsing() {
    let mut buffer = TextBuffer::new("echo ");
    let mut tokens = parsed(buffer.buffer());

    handle_char_insertion(&mut buffer, &mut tokens, '"');
    assert_eq!(buffer.buffer(), "echo \"\"");
    assert_eq!(buffer.cursor_byte_pos(), 6);

    handle_char_insertion(&mut buffer, &mut tokens, '"');
    assert_eq!(buffer.buffer(), "echo \"\"");
    assert_eq!(buffer.cursor_byte_pos(), 7);
}

#[test]
fn delete_helper_detects_matching_auto_inserted_closing() {
    let mut buffer = TextBuffer::new("echo ");
    let mut tokens = parsed(buffer.buffer());

    handle_char_insertion(&mut buffer, &mut tokens, '"');
    assert_eq!(buffer.buffer(), "echo \"\"");
    assert_eq!(buffer.cursor_byte_pos(), 6);

    delete_auto_inserted_closing_if_present(&mut buffer, &tokens);
    assert_eq!(buffer.buffer(), "echo \"");
    assert_eq!(buffer.cursor_byte_pos(), 6);

    let mut no_pair_buffer = TextBuffer::new("echo \"");
    let no_pair_tokens = parsed(no_pair_buffer.buffer());
    delete_auto_inserted_closing_if_present(&mut no_pair_buffer, &no_pair_tokens);
    assert_eq!(no_pair_buffer.buffer(), "echo \"");
}

#[test]
fn inserting_opening_quote_inserts_closing_and_positions_cursor_inside() {
    let mut buffer = TextBuffer::new("echo ");
    let mut tokens = parsed(buffer.buffer());

    handle_char_insertion(&mut buffer, &mut tokens, '"');

    assert_eq!(buffer.buffer(), "echo \"\"");
    assert_eq!(buffer.cursor_byte_pos(), 6);
}

#[test]
fn inserting_closing_quote_over_auto_inserted_one_moves_cursor_without_duplicating() {
    let mut buffer = TextBuffer::new("echo ");
    let mut tokens = parsed(buffer.buffer());

    handle_char_insertion(&mut buffer, &mut tokens, '"');
    assert_eq!(buffer.buffer(), "echo \"\"");
    assert_eq!(buffer.cursor_byte_pos(), 6);

    handle_char_insertion(&mut buffer, &mut tokens, '"');
    assert_eq!(buffer.buffer(), "echo \"\"");
    assert_eq!(buffer.cursor_byte_pos(), 7);
}

#[test]
fn backspace_on_opener_also_removes_auto_inserted_closer() {
    let mut buffer = TextBuffer::new("echo ");
    let mut tokens = parsed(buffer.buffer());

    handle_char_insertion(&mut buffer, &mut tokens, '"');
    assert_eq!(buffer.buffer(), "echo \"\"");

    delete_auto_inserted_closing_if_present(&mut buffer, &tokens);
    buffer.delete_left();
    let tokens =
        DParser::parse_and_transfer_auto_inserted_flags(buffer.buffer(), &tokens);

    assert_eq!(buffer.buffer(), "echo ");
    assert_eq!(buffer.cursor_byte_pos(), 5);
    let _ = tokens;
}

#[test]
fn single_quote_inside_cmdsubst_inside_double_quote_autocloses() {
    let mut buffer = TextBuffer::new("echo \"$(echo foo  )\"");
    buffer.move_left();
    buffer.move_left();
    buffer.move_left();
    let mut tokens = parsed(buffer.buffer());

    handle_char_insertion(&mut buffer, &mut tokens, '\'');

    assert_eq!(buffer.buffer(), "echo \"$(echo foo '' )\"");
    assert_eq!(buffer.cursor_byte_pos(), 18);
}

#[test]
fn single_quote_inside_nested_cmdsubst_inside_double_quote_autocloses() {
    let mut buffer = TextBuffer::new("echo \"$($(echo foo  ))\"");
    let insertion_pos = buffer
        .buffer()
        .find("  ))\"")
        .expect("fixture should contain the nested cmdsubst tail")
        + 1;
    buffer.move_to_start();
    while buffer.cursor_byte_pos() < insertion_pos {
        buffer.move_right();
    }
    let mut tokens = parsed(buffer.buffer());

    handle_char_insertion(&mut buffer, &mut tokens, '\'');

    assert_eq!(buffer.buffer(), "echo \"$($(echo foo '' ))\"");
    assert_eq!(buffer.cursor_byte_pos(), insertion_pos + 1);
}

#[test]
fn repeated_backspace_on_nested_auto_inserted_parens_removes_inner_pair_each_time() {
    let mut buffer = TextBuffer::new("");
    let mut tokens = parsed(buffer.buffer());

    handle_char_insertion(&mut buffer, &mut tokens, '(');
    handle_char_insertion(&mut buffer, &mut tokens, '(');
    handle_char_insertion(&mut buffer, &mut tokens, '(');
    assert_eq!(buffer.buffer(), "((()))");
    assert_eq!(buffer.cursor_byte_pos(), 3);

    delete_auto_inserted_closing_if_present(&mut buffer, &tokens);
    buffer.delete_left();
    tokens = DParser::parse_and_transfer_auto_inserted_flags(buffer.buffer(), &tokens);
    assert_eq!(buffer.buffer(), "(())");
    assert_eq!(buffer.cursor_byte_pos(), 2);

    delete_auto_inserted_closing_if_present(&mut buffer, &tokens);
    buffer.delete_left();
    tokens = DParser::parse_and_transfer_auto_inserted_flags(buffer.buffer(), &tokens);
    assert_eq!(buffer.buffer(), "()");
    assert_eq!(buffer.cursor_byte_pos(), 1);

    delete_auto_inserted_closing_if_present(&mut buffer, &tokens);
    buffer.delete_left();
    tokens = DParser::parse_and_transfer_auto_inserted_flags(buffer.buffer(), &tokens);
    assert_eq!(buffer.buffer(), "");
    assert_eq!(buffer.cursor_byte_pos(), 0);

    let _ = tokens;
}


#[test]
fn inserting_open_square_bracket_after_command_inserts_closing_and_positions_cursor_inside() {
    // `[` after a command word is a regular argument and should auto-close.
    let mut buffer = TextBuffer::new("echo ");
    let mut tokens = parsed(buffer.buffer());

    handle_char_insertion(&mut buffer, &mut tokens, '[');

    assert_eq!(buffer.buffer(), "echo []");
    assert_eq!(buffer.cursor_byte_pos(), 6);
}

#[test]
fn inserting_close_square_bracket_over_auto_inserted_one_moves_cursor_without_duplicating() {
    let mut buffer = TextBuffer::new("echo ");
    let mut tokens = parsed(buffer.buffer());

    handle_char_insertion(&mut buffer, &mut tokens, '[');
    assert_eq!(buffer.buffer(), "echo []");
    assert_eq!(buffer.cursor_byte_pos(), 6);

    handle_char_insertion(&mut buffer, &mut tokens, ']');
    assert_eq!(buffer.buffer(), "echo []");
    assert_eq!(buffer.cursor_byte_pos(), 7);
}

#[test]
fn backspace_on_open_square_bracket_also_removes_auto_inserted_close() {
    let mut buffer = TextBuffer::new("echo ");
    let mut tokens = parsed(buffer.buffer());

    handle_char_insertion(&mut buffer, &mut tokens, '[');
    assert_eq!(buffer.buffer(), "echo []");

    delete_auto_inserted_closing_if_present(&mut buffer, &tokens);
    buffer.delete_left();
    let tokens =
        DParser::parse_and_transfer_auto_inserted_flags(buffer.buffer(), &tokens);

    assert_eq!(buffer.buffer(), "echo ");
    assert_eq!(buffer.cursor_byte_pos(), 5);
    let _ = tokens;
}

#[test]
fn open_square_bracket_at_start_of_command_is_not_autoclosed() {
    // At any command position (here: empty buffer; see the pipe/semicolon
    // tests below for the other cases) `[` is the POSIX `[` test command —
    // the user types `[ ... ]` themselves so we must not auto-insert `]`.
    let mut buffer = TextBuffer::new("");
    let mut tokens = parsed(buffer.buffer());

    handle_char_insertion(&mut buffer, &mut tokens, '[');

    assert_eq!(buffer.buffer(), "[");
    assert_eq!(buffer.cursor_byte_pos(), 1);
}

#[test]
fn open_square_bracket_after_pipe_is_in_command_position_and_not_autoclosed() {
    // After a pipe, the next word is a fresh command — so `[` is again at
    // command position and must not be auto-closed.
    let mut buffer = TextBuffer::new("echo hi | ");
    let mut tokens = parsed(buffer.buffer());

    handle_char_insertion(&mut buffer, &mut tokens, '[');

    assert_eq!(buffer.buffer(), "echo hi | [");
    assert_eq!(buffer.cursor_byte_pos(), 11);
}

#[test]
fn open_square_bracket_after_semicolon_is_in_command_position_and_not_autoclosed() {
    let mut buffer = TextBuffer::new("echo hi; ");
    let mut tokens = parsed(buffer.buffer());

    handle_char_insertion(&mut buffer, &mut tokens, '[');

    assert_eq!(buffer.buffer(), "echo hi; [");
    assert_eq!(buffer.cursor_byte_pos(), 10);
}

#[test]
fn open_square_bracket_in_middle_of_argument_list_is_autoclosed() {
    // `[` after an existing argument is not in command position and should
    // be auto-closed like any other `[` opener.
    let mut buffer = TextBuffer::new("ls -l ");
    let mut tokens = parsed(buffer.buffer());

    handle_char_insertion(&mut buffer, &mut tokens, '[');

    assert_eq!(buffer.buffer(), "ls -l []");
    assert_eq!(buffer.cursor_byte_pos(), 7);
}
