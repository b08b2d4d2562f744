use crate::command::Command;
use crate::digits::{decimal, decimal_value, lemma_decimal_reads_back, parse_decimal, write_decimal};
use crate::text::chars_of;
use vstd::prelude::*;

verus! {

/// A line that is not the encoding of any command.
#[derive(Debug, Clone, PartialEq, Eq)]
pub struct DecodeError {
    /// The rejected line, as it was received.
    pub line: String,
}

/// A lower-case hexadecimal digit.
pub open spec fn hex_digit(d: int) -> char {
    if d < 10 {
        (d + 48) as char
    } else {
        (d + 87) as char
    }
}

/// How a character is written inside the quotes of a `Char` record: `"`
/// and `\` are escaped, control characters below U+0020 take their short
/// escape or `\u00XX`, everything else stands as it is.
pub open spec fn escape(c: char) -> Seq<char> {
    if c == '"' {
        seq!['\\', '"']
    } else if c == '\\' {
        seq!['\\', '\\']
    } else if c == '\n' {
        seq!['\\', 'n']
    } else if c == '\r' {
        seq!['\\', 'r']
    } else if c == '\t' {
        seq!['\\', 't']
    } else if c == '\u{8}' {
        seq!['\\', 'b']
    } else if c == '\u{c}' {
        seq!['\\', 'f']
    } else if (c as int) < 32 {
        seq!['\\', 'u', '0', '0', hex_digit((c as int) / 16), hex_digit((c as int) % 16)]
    } else {
        seq![c]
    }
}

/// `{"Sleep":`
pub open spec fn sleep_head() -> Seq<char> {
    seq!['{', '"', 'S', 'l', 'e', 'e', 'p', '"', ':']
}

/// `{"Char":"`
pub open spec fn char_head() -> Seq<char> {
    seq!['{', '"', 'C', 'h', 'a', 'r', '"', ':', '"']
}

/// The line that carries a command: a quoted tag for the variants without
/// payload, a one-field record keyed by the tag for the others.
pub open spec fn encoding(cmd: Command) -> Seq<char> {
    match cmd {
        Command::Tab => seq!['"', 'T', 'a', 'b', '"'],
        Command::Enter => seq!['"', 'E', 'n', 't', 'e', 'r', '"'],
        Command::Void => seq!['"', 'V', 'o', 'i', 'd', '"'],
        Command::Sleep(n) => sleep_head() + decimal(n as nat) + seq!['}'],
        Command::Char(c) => char_head() + escape(c) + seq!['"', '}'],
    }
}

/// The command that a line carries, if it carries one.
pub open spec fn decoding(line: Seq<char>) -> Option<Command> {
    if exists|c: Command| encoding(c) == line {
        Some(choose|c: Command| encoding(c) == line)
    } else {
        None
    }
}

proof fn lemma_hex_digit_injective(a: int, b: int)
    requires
        0 <= a < 16,
        0 <= b < 16,
        hex_digit(a) == hex_digit(b),
    ensures
        a == b,
{
}

proof fn lemma_escape_injective(c1: char, c2: char)
    requires
        escape(c1) == escape(c2),
    ensures
        c1 == c2,
{
    let e = escape(c1);
    if e.len() == 6 {
        assert(e[4] == escape(c2)[4] && e[5] == escape(c2)[5]);
        lemma_hex_digit_injective((c1 as int) / 16, (c2 as int) / 16);
        lemma_hex_digit_injective((c1 as int) % 16, (c2 as int) % 16);
        assert(c1 as int == 16 * ((c1 as int) / 16) + (c1 as int) % 16);
        assert(c2 as int == 16 * ((c2 as int) / 16) + (c2 as int) % 16);
    } else if e.len() == 2 {
        assert(e[1] == escape(c2)[1]);
    } else {
        assert(e[0] == escape(c2)[0]);
    }
}

proof fn lemma_encoding_injective(c1: Command, c2: Command)
    requires
        encoding(c1) == encoding(c2),
    ensures
        c1 == c2,
{
    let e = encoding(c1);
    assert(e[0] == encoding(c2)[0]);
    assert(e[1] == encoding(c2)[1]);
    assert(e[2] == encoding(c2)[2]);
    match (c1, c2) {
        (Command::Sleep(n1), Command::Sleep(n2)) => {
            lemma_decimal_reads_back(n1 as nat);
            lemma_decimal_reads_back(n2 as nat);
            assert(e.subrange(9, e.len() - 1) =~= decimal(n1 as nat));
            assert(encoding(c2).subrange(9, e.len() - 1) =~= decimal(n2 as nat));
        },
        (Command::Char(a), Command::Char(b)) => {
            assert(e.subrange(9, e.len() - 2) =~= escape(a));
            assert(encoding(c2).subrange(9, e.len() - 2) =~= escape(b));
            lemma_escape_injective(a, b);
        },
        _ => {},
    }
}

/// Decoding the encoding of any command gives that command back.
pub proof fn round_trip(cmd: Command)
    ensures
        decoding(encoding(cmd)) == Some(cmd),
{
    let line = encoding(cmd);
    assert(exists|c: Command| encoding(c) == line);
    let c = choose|c: Command| encoding(c) == line;
    lemma_encoding_injective(c, cmd);
}

fn push_hex_digit(out: &mut String, d: u32)
    requires
        d < 16,
    ensures
        final(out)@ == old(out)@.push(hex_digit(d as int)),
{
    if d < 10 {
        out.push(((d as u8) + 48u8) as char);
    } else {
        out.push(((d as u8) + 87u8) as char);
    }
}

fn push_escaped(out: &mut String, c: char)
    ensures
        final(out)@ == old(out)@ + escape(c),
{
    let ghost start = out@;
    if c == '"' {
        out.push('\\');
        out.push('"');
    } else if c == '\\' {
        out.push('\\');
        out.push('\\');
    } else if c == '\n' {
        out.push('\\');
        out.push('n');
    } else if c == '\r' {
        out.push('\\');
        out.push('r');
    } else if c == '\t' {
        out.push('\\');
        out.push('t');
    } else if c == '\u{8}' {
        out.push('\\');
        out.push('b');
    } else if c == '\u{c}' {
        out.push('\\');
        out.push('f');
    } else if (c as u32) < 32 {
        out.push('\\');
        out.push('u');
        out.push('0');
        out.push('0');
        push_hex_digit(out, (c as u32) / 16);
        push_hex_digit(out, (c as u32) % 16);
    } else {
        out.push(c);
    }
    assert(out@ =~= start + escape(c));
}

/// Writes a command as one line of text (without the line break).
pub fn encode(cmd: Command) -> (r: String)
    ensures
        r@ == encoding(cmd),
{
    let mut out = String::new();
    match cmd {
        Command::Tab => {
            out.push('"');
            out.push('T');
            out.push('a');
            out.push('b');
            out.push('"');
        },
        Command::Enter => {
            out.push('"');
            out.push('E');
            out.push('n');
            out.push('t');
            out.push('e');
            out.push('r');
            out.push('"');
        },
        Command::Void => {
            out.push('"');
            out.push('V');
            out.push('o');
            out.push('i');
            out.push('d');
            out.push('"');
        },
        Command::Sleep(n) => {
            out.push('{');
            out.push('"');
            out.push('S');
            out.push('l');
            out.push('e');
            out.push('e');
            out.push('p');
            out.push('"');
            out.push(':');
            let ghost head = out@;
            assert(head =~= sleep_head());
            write_decimal(&mut out, n);
            out.push('}');
        },
        Command::Char(c) => {
            out.push('{');
            out.push('"');
            out.push('C');
            out.push('h');
            out.push('a');
            out.push('r');
            out.push('"');
            out.push(':');
            out.push('"');
            let ghost head = out@;
            assert(head =~= char_head());
            push_escaped(&mut out, c);
            out.push('"');
            out.push('}');
        },
    }
    assert(out@ =~= encoding(cmd));
    out
}

fn hex_value(c: char) -> (r: Option<u32>)
    ensures
        forall|d: int| 0 <= d < 16 && c == hex_digit(d) ==> r == Some(d as u32),
        r matches Some(v) ==> v < 16,
{
    if '0' <= c && c <= '9' {
        Some(c as u32 - 48)
    } else if 'a' <= c && c <= 'f' {
        Some(c as u32 - 87)
    } else {
        None
    }
}

/// The character that a two-character escape `\e` stands for.
pub open spec fn short_unescape(e: char) -> Option<char> {
    if e == '"' {
        Some('"')
    } else if e == '\\' {
        Some('\\')
    } else if e == 'n' {
        Some('\n')
    } else if e == 'r' {
        Some('\r')
    } else if e == 't' {
        Some('\t')
    } else if e == 'b' {
        Some('\u{8}')
    } else if e == 'f' {
        Some('\u{c}')
    } else {
        None
    }
}

proof fn lemma_escape_shape(c: char)
    ensures
        escape(c).len() == 1 || escape(c).len() == 2 || escape(c).len() == 6,
        escape(c).len() == 1 ==> escape(c)[0] == c,
        escape(c).len() == 2 ==> escape(c)[0] == '\\' && short_unescape(escape(c)[1]) == Some(c),
        escape(c).len() == 6 ==> {
            &&& escape(c)[0] == '\\'
            &&& escape(c)[1] == 'u'
            &&& escape(c)[2] == '0'
            &&& escape(c)[3] == '0'
            &&& escape(c)[4] == hex_digit((c as int) / 16)
            &&& escape(c)[5] == hex_digit((c as int) % 16)
            &&& 0 <= (c as int) < 32
        },
{
}

/// Reads back the character that `s[from..to]` writes, where it is the
/// escaped form of one.
fn unescape(s: &Vec<char>, from: usize, to: usize) -> (r: Option<char>)
    requires
        from <= to <= s.len(),
    ensures
        forall|c: char| s@.subrange(from as int, to as int) == escape(c) ==> r == Some(c),
{
    let ghost t = s@.subrange(from as int, to as int);
    if to - from == 1 {
        proof {
            assert forall|c: char| t == escape(c) implies s@[from as int] == c by {
                lemma_escape_shape(c);
                assert(t[0] == s@[from as int]);
            }
        }
        return Some(s[from]);
    }
    if (to - from != 2 && to - from != 6) || s[from] != '\\' {
        proof {
            assert forall|c: char| t == escape(c) implies false by {
                lemma_escape_shape(c);
                assert(t[0] == s@[from as int]);
            }
        }
        return None;
    }
    let e = s[from + 1];
    proof {
        assert(e == t[1] && s@[from as int] == t[0]);
    }
    let r = if to - from == 2 {
        if e == '"' {
            Some('"')
        } else if e == '\\' {
            Some('\\')
        } else if e == 'n' {
            Some('\n')
        } else if e == 'r' {
            Some('\r')
        } else if e == 't' {
            Some('\t')
        } else if e == 'b' {
            Some('\u{8}')
        } else if e == 'f' {
            Some('\u{c}')
        } else {
            None
        }
    } else if e != 'u' || s[from + 2] != '0' || s[from + 3] != '0' {
        assert(t[2] == s@[from + 2] && t[3] == s@[from + 3]);
        None
    } else {
        let hi = hex_value(s[from + 4]);
        let lo = hex_value(s[from + 5]);
        assert(t[4] == s@[from + 4] && t[5] == s@[from + 5]);
        match (hi, lo) {
            (Some(h), Some(l)) => {
                let v = h * 16 + l;
                if v < 32 {
                    Some((v as u8) as char)
                } else {
                    None
                }
            },
            _ => None,
        }
    };
    proof {
        assert forall|c: char| t == escape(c) implies r == Some(c) by {
            lemma_escape_shape(c);
            if t.len() == 6 {
                assert(c as int == 16 * ((c as int) / 16) + (c as int) % 16);
            }
        }
    }
    r
}

/// The one command that `s` could be the encoding of, guessed from its tag.
fn candidate(s: &Vec<char>) -> (r: Option<Command>)
    ensures
        forall|c: Command| s@ == encoding(c) ==> r == Some(c),
{
    let n = s.len();
    if n < 3 {
        return None;
    }
    if s[0] == '"' {
        if s[1] == 'T' {
            Some(Command::Tab)
        } else if s[1] == 'E' {
            Some(Command::Enter)
        } else if s[1] == 'V' {
            Some(Command::Void)
        } else {
            None
        }
    } else if s[0] == '{' && n >= 10 {
        if s[2] == 'S' {
            match parse_decimal(s, 9, n - 1) {
                Some(v) => {
                    proof {
                        assert forall|c: Command| s@ == encoding(c) implies Some(Command::Sleep(v))
                            == Some(c) by {
                            if let Command::Sleep(m) = c {
                                lemma_decimal_reads_back(m as nat);
                                assert(s@.subrange(9, n - 1) =~= decimal(m as nat));
                            }
                        }
                    }
                    Some(Command::Sleep(v))
                },
                None => {
                    proof {
                        assert forall|c: Command| s@ == encoding(c) implies false by {
                            if let Command::Sleep(m) = c {
                                lemma_decimal_reads_back(m as nat);
                                assert(s@.subrange(9, n - 1) =~= decimal(m as nat));
                            }
                        }
                    }
                    None
                },
            }
        } else if s[2] == 'C' && n >= 11 {
            match unescape(s, 9, n - 2) {
                Some(ch) => {
                    proof {
                        assert forall|c: Command| s@ == encoding(c) implies Some(Command::Char(ch))
                            == Some(c) by {
                            if let Command::Char(x) = c {
                                assert(s@.subrange(9, n - 2) =~= escape(x));
                            }
                        }
                    }
                    Some(Command::Char(ch))
                },
                None => {
                    proof {
                        assert forall|c: Command| s@ == encoding(c) implies false by {
                            if let Command::Char(x) = c {
                                assert(s@.subrange(9, n - 2) =~= escape(x));
                            }
                        }
                    }
                    None
                },
            }
        } else {
            None
        }
    } else {
        None
    }
}

/// Reads one line of the transport. A line that carries no command is
/// rejected, with the line kept in the error.
pub fn decode(line: &str) -> (r: Result<Command, DecodeError>)
    ensures
        match r {
            Ok(c) => decoding(line@) == Some(c),
            Err(e) => decoding(line@) is None && e.line@ == line@,
        },
{
    let s = chars_of(line);
    let owned = line.to_owned();
    if let Some(c) = candidate(&s) {
        let e = encode(c);
        if e == owned {
            proof {
                round_trip(c);
            }
            return Ok(c);
        }
    }
    proof {
        if exists|c: Command| encoding(c) == line@ {
            let c = choose|c: Command| encoding(c) == line@;
            assert(false);
        }
    }
    Err(DecodeError { line: owned })
}

} // verus!
