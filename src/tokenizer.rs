use crate::command::Command;
use crate::digits::{decimal_value, parse_decimal};
use crate::text::{chars_of, occurs_at, text_at};
use vstd::prelude::*;

verus! {

/// The control placeholders of a template, in the order in which their
/// passes run.
#[derive(Debug, Clone, Copy, PartialEq, Eq, Structural)]
pub enum Placeholder {
    /// `{TAB}`
    Tab,
    /// `{ENTER}`
    Enter,
    /// `{SLEEP=<payload>}`, the payload running up to the first `}`.
    Sleep,
}

/// A working set: at each character position of the template, the command
/// that stands there, if any.
pub type Slots = Seq<Option<Command>>;

pub open spec fn tab_text() -> Seq<char> {
    seq!['{', 'T', 'A', 'B', '}']
}

pub open spec fn enter_text() -> Seq<char> {
    seq!['{', 'E', 'N', 'T', 'E', 'R', '}']
}

/// What opens a sleep placeholder; its payload follows.
pub open spec fn sleep_opening() -> Seq<char> {
    seq!['{', 'S', 'L', 'E', 'E', 'P', '=']
}

/// The first position at or after `k` that holds `}`, or the length of `s`
/// where there is none.
pub open spec fn close_from(s: Seq<char>, k: int) -> int
    decreases s.len() - k,
{
    if k < 0 || k >= s.len() {
        s.len() as int
    } else if s[k] == '}' {
        k
    } else {
        close_from(s, k + 1)
    }
}

/// The length of the match of `p` that starts at `i`, or 0 where none does.
pub open spec fn match_len(s: Seq<char>, p: Placeholder, i: int) -> int {
    match p {
        Placeholder::Tab => if occurs_at(s, tab_text(), i) {
            5
        } else {
            0
        },
        Placeholder::Enter => if occurs_at(s, enter_text(), i) {
            7
        } else {
            0
        },
        Placeholder::Sleep => if occurs_at(s, sleep_opening(), i) && close_from(s, i + 7) < s.len() {
            close_from(s, i + 7) + 1 - i
        } else {
            0
        },
    }
}

/// The command that a sleep payload stands for: a pause where it reads as a
/// number, else nothing.
pub open spec fn sleep_command(payload: Seq<char>) -> Command {
    match decimal_value(payload) {
        Some(n) => Command::Sleep(n),
        None => Command::Void,
    }
}

/// The command that the match of `p` starting at `i`, `len` long, resolves to.
pub open spec fn match_command(s: Seq<char>, p: Placeholder, i: int, len: int) -> Command {
    match p {
        Placeholder::Tab => Command::Tab,
        Placeholder::Enter => Command::Enter,
        Placeholder::Sleep => sleep_command(s.subrange(i + 7, i + len - 1)),
    }
}

/// The working-set entry that types `c`.
pub open spec fn char_slot(c: char) -> Option<Command> {
    Some(Command::Char(c))
}

/// One `Char` command at each position of `s`.
pub open spec fn seed(s: Seq<char>) -> Slots {
    Seq::new(s.len(), |k: int| char_slot(s[k]))
}

/// Clears the positions of `[a, b)` and puts `cmd` at `a`.
pub open spec fn replace_span(slots: Slots, a: int, b: int, cmd: Command) -> Slots {
    Seq::new(
        slots.len(),
        |k: int|
            if k == a {
                Some(cmd)
            } else if a < k < b {
                None
            } else {
                slots[k]
            },
    )
}

/// One pass of `p` over `s` from position `i` on: each leftmost match, taken
/// without overlap, replaces its span in the working set.
pub open spec fn run_pass(s: Seq<char>, p: Placeholder, i: int, slots: Slots) -> Slots
    decreases s.len() - i,
{
    if i < 0 || i >= s.len() {
        slots
    } else if match_len(s, p, i) > 0 {
        let len = match_len(s, p, i);
        run_pass(s, p, i + len, replace_span(slots, i, i + len, match_command(s, p, i, len)))
    } else {
        run_pass(s, p, i + 1, slots)
    }
}

/// The working set after the three passes, in their fixed order.
pub open spec fn resolved(s: Seq<char>) -> Slots {
    run_pass(s, Placeholder::Sleep, 0, run_pass(s, Placeholder::Enter, 0, run_pass(s, Placeholder::Tab, 0, seed(s))))
}

/// The commands of a working set in position order.
pub open spec fn emit(slots: Slots) -> Seq<Command>
    decreases slots.len(),
{
    if slots.len() == 0 {
        Seq::empty()
    } else {
        let rest = emit(slots.drop_last());
        match slots.last() {
            Some(c) => rest.push(c),
            None => rest,
        }
    }
}

/// The command sequence of a template.
pub open spec fn tokenize(s: Seq<char>) -> Seq<Command> {
    emit(resolved(s))
}

proof fn lemma_close_from_bounds(s: Seq<char>, k: int)
    requires
        0 <= k <= s.len(),
    ensures
        k <= close_from(s, k) <= s.len(),
        close_from(s, k) < s.len() ==> s[close_from(s, k)] == '}',
        forall|j: int| k <= j < close_from(s, k) ==> s[j] != '}',
    decreases s.len() - k,
{
    if k < s.len() && s[k] != '}' {
        lemma_close_from_bounds(s, k + 1);
    }
}

fn close_from_exec(s: &Vec<char>, k: usize) -> (r: usize)
    ensures
        r == close_from(s@, k as int),
{
    let mut j: usize = k;
    if j >= s.len() {
        return s.len();
    }
    while j < s.len()
        invariant
            k <= j <= s.len(),
            close_from(s@, k as int) == close_from(s@, j as int),
        decreases s.len() - j,
    {
        if s[j] == '}' {
            return j;
        }
        j = j + 1;
    }
    j
}

fn pattern_text(p: Placeholder) -> (r: Vec<char>)
    ensures
        r@ == match p {
            Placeholder::Tab => tab_text(),
            Placeholder::Enter => enter_text(),
            Placeholder::Sleep => sleep_opening(),
        },
{
    match p {
        Placeholder::Tab => vec!['{', 'T', 'A', 'B', '}'],
        Placeholder::Enter => vec!['{', 'E', 'N', 'T', 'E', 'R', '}'],
        Placeholder::Sleep => vec!['{', 'S', 'L', 'E', 'E', 'P', '='],
    }
}

fn match_len_exec(s: &Vec<char>, p: Placeholder, i: usize) -> (r: usize)
    requires
        i < s.len(),
    ensures
        r == match_len(s@, p, i as int),
{
    let text = pattern_text(p);
    if !text_at(s, i, &text) {
        return 0;
    }
    match p {
        Placeholder::Tab => 5,
        Placeholder::Enter => 7,
        Placeholder::Sleep => {
            let close = close_from_exec(s, i + 7);
            proof {
                lemma_close_from_bounds(s@, i + 7);
            }
            if close < s.len() {
                close + 1 - i
            } else {
                0
            }
        },
    }
}

fn replace_span_exec(slots: &mut Vec<Option<Command>>, a: usize, b: usize, cmd: Command)
    requires
        a < b <= old(slots).len(),
    ensures
        final(slots)@ == replace_span(old(slots)@, a as int, b as int, cmd),
{
    let ghost target = replace_span(old(slots)@, a as int, b as int, cmd);
    slots.set(a, Some(cmd));
    let mut k: usize = a + 1;
    while k < b
        invariant
            a < k <= b <= slots.len(),
            target == replace_span(old(slots)@, a as int, b as int, cmd),
            target.len() == slots.len(),
            slots.len() == old(slots).len(),
            forall|j: int| 0 <= j < k ==> slots@[j] == target[j],
            forall|j: int| k <= j < slots.len() ==> slots@[j] == old(slots)@[j],
        decreases b - k,
    {
        slots.set(k, None);
        k = k + 1;
    }
    assert(slots@ =~= target);
}

/// Runs the pass of `p` over the template `s` on the working set `slots`.
fn replace_chars_with_cmd(s: &Vec<char>, p: Placeholder, slots: &mut Vec<Option<Command>>)
    requires
        old(slots).len() == s.len(),
    ensures
        final(slots)@ == run_pass(s@, p, 0, old(slots)@),
        final(slots).len() == s.len(),
{
    let mut i: usize = 0;
    while i < s.len()
        invariant
            i <= s.len(),
            slots.len() == s.len(),
            run_pass(s@, p, 0, old(slots)@) == run_pass(s@, p, i as int, slots@),
        decreases s.len() - i,
    {
        let len = match_len_exec(s, p, i);
        proof {
            if p == Placeholder::Sleep && i + 7 <= s.len() {
                lemma_close_from_bounds(s@, i + 7);
            }
        }
        if len > 0 {
            let cmd = match p {
                Placeholder::Tab => Command::Tab,
                Placeholder::Enter => Command::Enter,
                Placeholder::Sleep => match parse_decimal(s, i + 7, i + len - 1) {
                    Some(n) => Command::Sleep(n),
                    None => Command::Void,
                },
            };
            assert(cmd == match_command(s@, p, i as int, len as int));
            replace_span_exec(slots, i, i + len, cmd);
            i = i + len;
        } else {
            i = i + 1;
        }
    }
}

/// Turns a template into its command sequence: one `Char` per character,
/// with each `{TAB}`, `{ENTER}` and `{SLEEP=<n>}` replaced by its command
/// (`Void` where the sleep payload is not a number). Passes run in the fixed
/// order Tab, Enter, Sleep; where matches of two passes overlap, the later
/// pass wins.
pub fn to_command_stream(string: String) -> (r: Vec<Command>)
    ensures
        r@ == tokenize(string@),
{
    let s = chars_of(string.as_str());
    let mut slots: Vec<Option<Command>> = Vec::new();
    let mut k: usize = 0;
    while k < s.len()
        invariant
            k <= s.len(),
            slots@ == seed(s@).take(k as int),
        decreases s.len() - k,
    {
        assert(seed(s@)[k as int] == char_slot(s@[k as int]));
        slots.push(Some(Command::Char(s[k])));
        k = k + 1;
        assert(slots@ =~= seed(s@).take(k as int));
    }
    assert(slots@ =~= seed(s@));
    replace_chars_with_cmd(&s, Placeholder::Tab, &mut slots);
    replace_chars_with_cmd(&s, Placeholder::Enter, &mut slots);
    replace_chars_with_cmd(&s, Placeholder::Sleep, &mut slots);
    assert(slots@ == resolved(s@));

    let mut out: Vec<Command> = Vec::new();
    let mut j: usize = 0;
    while j < slots.len()
        invariant
            j <= slots.len(),
            out@ == emit(slots@.take(j as int)),
        decreases slots.len() - j,
    {
        assert(slots@.take(j + 1).drop_last() =~= slots@.take(j as int));
        match slots[j] {
            Some(c) => out.push(c),
            None => {},
        }
        j = j + 1;
    }
    assert(slots@.take(slots.len() as int) =~= slots@);
    out
}

/// Some placeholder of some pass matches somewhere in `s`.
pub open spec fn has_placeholder(s: Seq<char>) -> bool {
    exists|p: Placeholder, i: int| 0 <= i < s.len() && match_len(s, p, i) > 0
}

/// Scanning `s` for `p` from position `i` on, the pass takes a match at `a`.
pub open spec fn takes(s: Seq<char>, p: Placeholder, i: int, a: int) -> bool
    decreases s.len() - i,
{
    if i < 0 || i >= s.len() {
        false
    } else if match_len(s, p, i) > 0 {
        a == i || takes(s, p, i + match_len(s, p, i), a)
    } else {
        takes(s, p, i + 1, a)
    }
}

proof fn lemma_pass_without_matches(s: Seq<char>, p: Placeholder, i: int, slots: Slots)
    requires
        0 <= i,
        forall|j: int| i <= j < s.len() ==> match_len(s, p, j) == 0,
    ensures
        run_pass(s, p, i, slots) == slots,
    decreases s.len() - i,
{
    if i < s.len() {
        lemma_pass_without_matches(s, p, i + 1, slots);
    }
}

proof fn lemma_emit_seed(s: Seq<char>)
    ensures
        emit(seed(s)).len() == s.len(),
        forall|k: int| 0 <= k < s.len() ==> emit(seed(s))[k] == Command::Char(s[k]),
    decreases s.len(),
{
    if s.len() > 0 {
        assert(seed(s).drop_last() =~= seed(s.drop_last()));
        lemma_emit_seed(s.drop_last());
        assert(seed(s).last() == char_slot(s.last()));
    }
}

/// A template in which no placeholder matches is typed as it stands: one
/// `Char` command per character, in the original order.
pub proof fn literal_preservation(s: Seq<char>)
    requires
        !has_placeholder(s),
    ensures
        tokenize(s).len() == s.len(),
        forall|k: int| 0 <= k < s.len() ==> tokenize(s)[k] == Command::Char(s[k]),
{
    assert forall|p: Placeholder, j: int| 0 <= j < s.len() implies match_len(s, p, j) == 0 by {
        lemma_match_len_fits(s, p, j);
        if match_len(s, p, j) > 0 {
            assert(has_placeholder(s));
        }
    }
    lemma_pass_without_matches(s, Placeholder::Tab, 0, seed(s));
    lemma_pass_without_matches(s, Placeholder::Enter, 0, seed(s));
    lemma_pass_without_matches(s, Placeholder::Sleep, 0, seed(s));
    lemma_emit_seed(s);
}

proof fn lemma_match_len_fits(s: Seq<char>, p: Placeholder, i: int)
    requires
        0 <= i < s.len(),
    ensures
        0 <= match_len(s, p, i),
        i + match_len(s, p, i) <= s.len(),
{
    if p == Placeholder::Sleep && occurs_at(s, sleep_opening(), i) {
        lemma_close_from_bounds(s, i + 7);
    }
}

proof fn lemma_run_pass_frame(s: Seq<char>, p: Placeholder, i: int, slots: Slots)
    requires
        0 <= i,
        slots.len() == s.len(),
    ensures
        run_pass(s, p, i, slots).len() == s.len(),
        forall|k: int| 0 <= k < i ==> run_pass(s, p, i, slots)[k] == slots[k],
    decreases s.len() - i,
{
    if i < s.len() {
        lemma_match_len_fits(s, p, i);
        let len = match_len(s, p, i);
        if len > 0 {
            let next = replace_span(slots, i, i + len, match_command(s, p, i, len));
            assert(next.len() == s.len());
            assert forall|k: int| 0 <= k < i implies next[k] == slots[k] by {}
            lemma_run_pass_frame(s, p, i + len, next);
        } else {
            lemma_run_pass_frame(s, p, i + 1, slots);
        }
    }
}

proof fn lemma_taken_match_stays(s: Seq<char>, p: Placeholder, i: int, a: int, slots: Slots)
    requires
        0 <= i,
        slots.len() == s.len(),
        takes(s, p, i, a),
    ensures
        run_pass(s, p, i, slots)[a] == Some(match_command(s, p, a, match_len(s, p, a))),
        forall|k: int|
            a < k < a + match_len(s, p, a) ==> (#[trigger] run_pass(s, p, i, slots)[k]) is None,
    decreases s.len() - i,
{
    lemma_match_len_fits(s, p, i);
    let len = match_len(s, p, i);
    if len > 0 {
        let next = replace_span(slots, i, i + len, match_command(s, p, i, len));
        assert(next.len() == s.len());
        if a == i {
            assert(next[a] == Some(match_command(s, p, i, len)));
            assert forall|k: int| a < k < a + len implies next[k] is None by {}
            lemma_run_pass_frame(s, p, i + len, next);
            assert(run_pass(s, p, i, slots) == run_pass(s, p, i + len, next));
            assert forall|k: int| a < k < a + len implies (#[trigger] run_pass(
                s,
                p,
                i,
                slots,
            )[k]) is None by {
                assert(run_pass(s, p, i + len, next)[k] == next[k]);
            }
        } else {
            lemma_taken_match_stays(s, p, i + len, a, next);
        }
    } else {
        lemma_taken_match_stays(s, p, i + 1, a, slots);
    }
}

/// The sleep pass runs last, so where it takes a match, the final working set
/// holds that match's command at its start and nothing else inside its span:
/// a `{TAB}` or `{ENTER}` that overlaps it leaves no trace.
pub proof fn sleep_pass_wins(s: Seq<char>, a: int)
    requires
        takes(s, Placeholder::Sleep, 0, a),
    ensures
        resolved(s)[a] == Some(
            match_command(s, Placeholder::Sleep, a, match_len(s, Placeholder::Sleep, a)),
        ),
        forall|k: int|
            a < k < a + match_len(s, Placeholder::Sleep, a) ==> (#[trigger] resolved(s)[k]) is None,
{
    let after_tab = run_pass(s, Placeholder::Tab, 0, seed(s));
    lemma_run_pass_frame(s, Placeholder::Tab, 0, seed(s));
    let after_enter = run_pass(s, Placeholder::Enter, 0, after_tab);
    lemma_run_pass_frame(s, Placeholder::Enter, 0, after_tab);
    lemma_taken_match_stays(s, Placeholder::Sleep, 0, a, after_enter);
}

} // verus!
