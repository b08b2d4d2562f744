use bitwarden_autotype::to_command_stream;
use bitwarden_autotype::Command;
use bitwarden_autotype::Command::{Char, Enter, Sleep, Tab, Void};

fn tokens(s: &str) -> Vec<Command> {
    to_command_stream(s.to_string())
}

#[test]
fn literal_text_is_one_char_per_character() {
    assert_eq!(tokens("abc"), vec![Char('a'), Char('b'), Char('c')]);
}

#[test]
fn literal_text_keeps_multibyte_characters() {
    assert_eq!(
        tokens("pä€😀"),
        vec![Char('p'), Char('ä'), Char('€'), Char('😀')]
    );
}

#[test]
fn tab_and_enter_are_substituted() {
    assert_eq!(
        tokens("ab{TAB}cd{ENTER}"),
        vec![Char('a'), Char('b'), Tab, Char('c'), Char('d'), Enter]
    );
}

#[test]
fn sleep_with_number_pauses() {
    assert_eq!(tokens("{SLEEP=250}"), vec![Sleep(250)]);
}

#[test]
fn sleep_with_malformed_payload_is_void() {
    assert_eq!(tokens("{SLEEP=xx}"), vec![Void]);
}

#[test]
fn sleep_with_empty_or_signed_payload_is_void() {
    assert_eq!(tokens("{SLEEP=}"), vec![Void]);
    assert_eq!(tokens("{SLEEP=+5}"), vec![Void]);
    assert_eq!(tokens("{SLEEP=-5}"), vec![Void]);
}

#[test]
fn sleep_at_the_largest_value_and_beyond() {
    assert_eq!(tokens("{SLEEP=18446744073709551615}"), vec![Sleep(u64::MAX)]);
    assert_eq!(tokens("{SLEEP=18446744073709551616}"), vec![Void]);
}

#[test]
fn sleep_with_leading_zeros_reads_the_number() {
    assert_eq!(tokens("{SLEEP=007}"), vec![Sleep(7)]);
}

#[test]
fn empty_template_gives_no_commands() {
    assert_eq!(tokens(""), Vec::<Command>::new());
}

#[test]
fn a_single_placeholder_gives_a_single_command() {
    assert_eq!(tokens("{TAB}"), vec![Tab]);
    assert_eq!(tokens("{ENTER}"), vec![Enter]);
    assert_eq!(tokens("{SLEEP=0}"), vec![Sleep(0)]);
}

#[test]
fn sleep_pass_overwrites_an_overlapping_tab() {
    assert_eq!(tokens("{SLEEP={TAB}"), vec![Void]);
    assert_eq!(tokens("a{SLEEP=1{ENTER}b"), vec![Char('a'), Void, Char('b')]);
}

#[test]
fn placeholders_are_case_sensitive() {
    assert_eq!(
        tokens("{tab}"),
        vec![Char('{'), Char('t'), Char('a'), Char('b'), Char('}')]
    );
}

#[test]
fn unterminated_sleep_stays_literal() {
    assert_eq!(
        tokens("{SLEEP=12"),
        vec![
            Char('{'),
            Char('S'),
            Char('L'),
            Char('E'),
            Char('E'),
            Char('P'),
            Char('='),
            Char('1'),
            Char('2')
        ]
    );
}

#[test]
fn placeholders_between_multibyte_characters() {
    assert_eq!(tokens("é{TAB}ü"), vec![Char('é'), Tab, Char('ü')]);
}

#[test]
fn credential_template_with_pause() {
    assert_eq!(
        tokens("u{TAB}{SLEEP=30}p{ENTER}"),
        vec![Char('u'), Tab, Sleep(30), Char('p'), Enter]
    );
}

#[test]
fn adjacent_and_nested_braces() {
    assert_eq!(tokens("{{TAB}}"), vec![Char('{'), Tab, Char('}')]);
    assert_eq!(tokens("{TAB}{TAB}"), vec![Tab, Tab]);
}
