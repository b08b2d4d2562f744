use bitwarden_autotype::transport::{decode, encode};
use bitwarden_autotype::Command;
use bitwarden_autotype::Command::{Char, Enter, Sleep, Tab, Void};

#[test]
fn every_variant_round_trips() {
    let cmds = vec![
        Tab,
        Enter,
        Void,
        Sleep(0),
        Sleep(250),
        Sleep(u64::MAX),
        Char('a'),
        Char('"'),
        Char('\\'),
        Char('\n'),
        Char('\r'),
        Char('\t'),
        Char('\u{8}'),
        Char('\u{c}'),
        Char('\u{0}'),
        Char('\u{1f}'),
        Char('\u{7f}'),
        Char('é'),
        Char('€'),
        Char('😀'),
        Char('}'),
        Char('{'),
    ];
    for c in cmds {
        assert_eq!(decode(&encode(c)), Ok(c), "{:?}", c);
    }
}

#[test]
fn encodings_are_tagged_records() {
    assert_eq!(encode(Tab), "\"Tab\"");
    assert_eq!(encode(Enter), "\"Enter\"");
    assert_eq!(encode(Void), "\"Void\"");
    assert_eq!(encode(Sleep(250)), "{\"Sleep\":250}");
    assert_eq!(encode(Sleep(0)), "{\"Sleep\":0}");
    assert_eq!(encode(Char('a')), "{\"Char\":\"a\"}");
}

#[test]
fn special_characters_are_escaped() {
    assert_eq!(encode(Char('"')), "{\"Char\":\"\\\"\"}");
    assert_eq!(encode(Char('\\')), "{\"Char\":\"\\\\\"}");
    assert_eq!(encode(Char('\n')), "{\"Char\":\"\\n\"}");
    assert_eq!(encode(Char('\u{1}')), "{\"Char\":\"\\u0001\"}");
    assert_eq!(encode(Char('\u{1b}')), "{\"Char\":\"\\u001b\"}");
    assert_eq!(encode(Char('€')), "{\"Char\":\"€\"}");
}

#[test]
fn encoded_lines_hold_no_line_break() {
    for c in [Char('\n'), Char('\r'), Sleep(12), Tab] {
        let line = encode(c);
        assert!(!line.contains('\n') && !line.contains('\r'));
    }
}

#[test]
fn decodes_lines_of_the_format() {
    assert_eq!(decode("\"Tab\""), Ok(Tab));
    assert_eq!(decode("{\"Sleep\":42}"), Ok(Sleep(42)));
    assert_eq!(decode("{\"Char\":\"x\"}"), Ok(Char('x')));
    assert_eq!(decode("{\"Char\":\"\\t\"}"), Ok(Char('\t')));
}

#[test]
fn malformed_lines_are_rejected_with_their_text() {
    let bad = [
        "garbage",
        "",
        "\"Tabs\"",
        "\"tab\"",
        "{\"Sleep\":}",
        "{\"Sleep\":x}",
        "{\"Sleep\":01}",
        "{\"Sleep\":18446744073709551616}",
        "{\"Char\":\"ab\"}",
        "{\"Char\":\"\"}",
        "{\"Char\":\"\\q\"}",
        "{\"Char\":\"\\u0041\"}",
        "{\"Unknown\":1}",
        "{\"Sleep\": 5}",
    ];
    for line in bad {
        let err = decode(line).unwrap_err();
        assert_eq!(err.line, line);
    }
}

#[test]
fn a_malformed_line_does_not_stop_the_ones_after_it() {
    let lines = ["{\"Char\":\"a\"}", "not a command", "\"Enter\""];
    let decoded: Vec<Result<Command, String>> = lines
        .iter()
        .map(|l| decode(l).map_err(|e| e.line))
        .collect();
    assert_eq!(
        decoded,
        vec![Ok(Char('a')), Err("not a command".to_string()), Ok(Enter)]
    );
}
