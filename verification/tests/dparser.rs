use autoclose::dparser::{closer_char, AnnotatedToken, Construct, DParser, Role};
use autoclose::auto_close::surround_closing_char;

fn roles(input: &str) -> Vec<Role> {
    DParser::parse_and_annotate(input).iter().map(|t| t.role).collect()
}

#[test]
fn surround_closing_char_pairs() {
    assert_eq!(surround_closing_char('('), Some(')'));
    assert_eq!(surround_closing_char('['), Some(']'));
    assert_eq!(surround_closing_char('{'), Some('}'));
    assert_eq!(surround_closing_char('"'), Some('"'));
    assert_eq!(surround_closing_char('\''), Some('\''));
    assert_eq!(surround_closing_char('`'), Some('`'));
    assert_eq!(surround_closing_char(')'), None);
    assert_eq!(surround_closing_char('a'), None);
}

#[test]
fn closer_chars_of_constructs() {
    assert_eq!(closer_char(Construct::DoubleQuote), '"');
    assert_eq!(closer_char(Construct::SingleQuote), '\'');
    assert_eq!(closer_char(Construct::Backtick), '`');
    assert_eq!(closer_char(Construct::Subshell), ')');
    assert_eq!(closer_char(Construct::CommandSubstitution), ')');
    assert_eq!(closer_char(Construct::BraceGroup), '}');
    assert_eq!(closer_char(Construct::ParameterExpansion), '}');
    assert_eq!(closer_char(Construct::Bracket), ']');
}

#[test]
fn parse_pairs_quotes_and_substitutions() {
    let r = roles("echo \"$(a)\"");
    assert_eq!(r.len(), 11);
    assert_eq!(r[5], Role::Open(Construct::DoubleQuote));
    assert_eq!(r[6], Role::Plain);
    assert_eq!(r[7], Role::Open(Construct::CommandSubstitution));
    assert_eq!(r[8], Role::Plain);
    assert_eq!(r[9], Role::Close(7));
    assert_eq!(r[10], Role::Close(5));
}

#[test]
fn parse_single_quotes_are_literal() {
    let r = roles("'(\"'");
    assert_eq!(r[0], Role::Open(Construct::SingleQuote));
    assert_eq!(r[1], Role::Plain);
    assert_eq!(r[2], Role::Plain);
    assert_eq!(r[3], Role::Close(0));
}

#[test]
fn parse_backslash_escapes_next_char() {
    let r = roles("\\(a");
    assert_eq!(r, vec![Role::Plain, Role::Plain, Role::Plain]);
}

#[test]
fn parse_bracket_depends_on_command_position() {
    assert_eq!(roles("[")[0], Role::Plain);
    assert_eq!(roles("ls [")[3], Role::Open(Construct::Bracket));
    assert_eq!(roles("ls; [")[4], Role::Plain);
    let r = roles("ls [a]");
    assert_eq!(r[5], Role::Close(3));
}

#[test]
fn parse_braces_and_parameter_expansion() {
    let r = roles("{ ${x} }");
    assert_eq!(r[0], Role::Open(Construct::BraceGroup));
    assert_eq!(r[3], Role::Open(Construct::ParameterExpansion));
    assert_eq!(r[5], Role::Close(3));
    assert_eq!(r[7], Role::Close(0));
}

#[test]
fn parse_backticks_open_and_close() {
    let r = roles("`a`");
    assert_eq!(r[0], Role::Open(Construct::Backtick));
    assert_eq!(r[2], Role::Close(0));
}

#[test]
fn parse_of_a_prefix_is_a_prefix_of_the_parse() {
    let whole = roles("echo \"$(ls [a])\" | (b)");
    for n in 0..whole.len() {
        let text: String = "echo \"$(ls [a])\" | (b)".chars().take(n).collect();
        assert_eq!(roles(&text), whole[..n].to_vec());
    }
}

#[test]
fn parse_marks_nothing_auto_inserted() {
    let toks = DParser::parse_and_annotate("(\"x\")");
    assert!(toks.iter().all(|t| !t.auto_inserted));
    let chars: String = toks.iter().map(|t| t.ch).collect();
    assert_eq!(chars, "(\"x\")");
}

fn marked(input: &str, pos: usize) -> Vec<AnnotatedToken> {
    let mut toks = DParser::parse_and_annotate(input);
    let closing = toks[pos].ch;
    assert!(DParser::mark_auto_inserted_closing(&mut toks, closing, pos));
    toks
}

#[test]
fn transfer_to_same_text_keeps_marks() {
    let toks = marked("()", 1);
    let again = DParser::parse_and_transfer_auto_inserted_flags("()", &toks);
    assert_eq!(again, toks);
}

#[test]
fn transfer_follows_the_edit() {
    // "()" with the `)` marked; an `x` typed between them keeps the mark on `)`.
    let toks = marked("()", 1);
    let after = DParser::parse_and_transfer_auto_inserted_flags("(x)", &toks);
    let flags: Vec<bool> = after.iter().map(|t| t.auto_inserted).collect();
    assert_eq!(flags, vec![false, false, true]);
    assert_eq!(after[2].role, Role::Close(0));
    // Deleting the `)` drops its mark.
    let gone = DParser::parse_and_transfer_auto_inserted_flags("(", &toks);
    assert_eq!(gone.len(), 1);
    assert!(!gone[0].auto_inserted);
}

#[test]
fn mark_refuses_what_is_not_a_closer() {
    let mut toks = DParser::parse_and_annotate("(a)");
    assert!(!DParser::mark_auto_inserted_closing(&mut toks, '(', 0));
    assert!(!DParser::mark_auto_inserted_closing(&mut toks, ']', 2));
    assert!(!DParser::mark_auto_inserted_closing(&mut toks, ')', 3));
    assert!(toks.iter().all(|t| !t.auto_inserted));
    assert!(DParser::mark_auto_inserted_closing(&mut toks, ')', 2));
    assert!(toks[2].auto_inserted);
}

#[test]
fn consume_clears_only_a_matching_mark() {
    let mut toks = marked("()", 1);
    assert!(!DParser::consume_overwritten_auto_inserted_closing(&mut toks, ']', 1));
    assert!(!DParser::consume_overwritten_auto_inserted_closing(&mut toks, ')', 0));
    assert!(toks[1].auto_inserted);
    assert!(DParser::consume_overwritten_auto_inserted_closing(&mut toks, ')', 1));
    assert!(!toks[1].auto_inserted);
    assert!(!DParser::consume_overwritten_auto_inserted_closing(&mut toks, ')', 1));
}

#[test]
fn should_delete_needs_a_marked_closer_of_the_previous_char() {
    let toks = marked("()", 1);
    assert!(DParser::should_delete_auto_inserted_closing(&toks, 1));
    assert!(!DParser::should_delete_auto_inserted_closing(&toks, 0));
    assert!(!DParser::should_delete_auto_inserted_closing(&toks, 2));
    let unmarked = DParser::parse_and_annotate("()");
    assert!(!DParser::should_delete_auto_inserted_closing(&unmarked, 1));
    let apart = marked("(a)", 2);
    assert!(!DParser::should_delete_auto_inserted_closing(&apart, 2));
}

#[test]
fn closing_choice_skips_openers_closed_by_typed_closers() {
    let toks = DParser::parse_and_annotate("(");
    assert_eq!(DParser::closing_char_to_insert_after_insertion(&toks, '(', 0), Some(')'));
    let closed = DParser::parse_and_annotate("()");
    assert_eq!(DParser::closing_char_to_insert_after_insertion(&closed, '(', 0), None);
    let auto_closed = marked("()", 1);
    assert_eq!(DParser::closing_char_to_insert_after_insertion(&auto_closed, '(', 0), Some(')'));
    assert_eq!(DParser::closing_char_to_insert_after_insertion(&toks, '[', 0), None);
    assert_eq!(DParser::closing_char_to_insert_after_insertion(&toks, '(', 1), None);
    let quote = DParser::parse_and_annotate("a\"b\"");
    assert_eq!(DParser::closing_char_to_insert_after_insertion(&quote, '"', 3), None);
}
