use crate::command::Command;
use crate::tokenizer::{to_command_stream, tokenize};
use crate::transport::{decode, decoding, DecodeError};
use vstd::prelude::*;

verus! {

/// The pause before each command of a template, in milliseconds: synthetic
/// input paced like a typist's.
pub const DEFAULT_SLEEP_MILLIS: u64 = 20;

/// A key that the keystroke sink presses.
#[derive(Debug, Clone, Copy, PartialEq, Eq, Structural)]
pub enum Key {
    Tab,
    Enter,
    Char(char),
}

/// One step of an execution plan.
#[derive(Debug, Clone, Copy, PartialEq, Eq, Structural)]
pub enum Action {
    /// Suspend for this many milliseconds.
    Pause(u64),
    /// Press and release this key.
    Press(Key),
}

/// What became of the action handed out last.
#[derive(Debug, Clone, Copy, PartialEq, Eq, Structural)]
pub enum Outcome {
    /// It was carried out (or nothing was handed out yet).
    Done,
    /// The sink failed to press the key.
    Failed,
}

/// The key that types `c`: tab and line feed have keys of their own.
pub open spec fn key_of_char(c: char) -> Key {
    if c == '\t' {
        Key::Tab
    } else if c == '\n' {
        Key::Enter
    } else {
        Key::Char(c)
    }
}

/// What carrying out one command takes.
pub open spec fn command_actions(cmd: Command) -> Seq<Action> {
    match cmd {
        Command::Tab => seq![Action::Press(Key::Tab)],
        Command::Enter => seq![Action::Press(Key::Enter)],
        Command::Char(c) => seq![Action::Press(key_of_char(c))],
        Command::Sleep(n) => seq![Action::Pause(n)],
        Command::Void => Seq::empty(),
    }
}

/// A command sequence carried out in order, each command preceded by the
/// fixed pause.
pub open spec fn paced_plan(cmds: Seq<Command>) -> Seq<Action>
    decreases cmds.len(),
{
    if cmds.len() == 0 {
        Seq::empty()
    } else {
        paced_plan(cmds.drop_last()).push(Action::Pause(DEFAULT_SLEEP_MILLIS)) + command_actions(
            cmds.last(),
        )
    }
}

/// The key for a character.
pub fn key_for(c: char) -> (r: Key)
    ensures
        r == key_of_char(c),
{
    if c == '\t' {
        Key::Tab
    } else if c == '\n' {
        Key::Enter
    } else {
        Key::Char(c)
    }
}

/// The actions that carry out one command, with no pacing.
pub fn handle_cmd(cmd: Command) -> (r: Vec<Action>)
    ensures
        r@ == command_actions(cmd),
{
    let mut r: Vec<Action> = Vec::new();
    match cmd {
        Command::Tab => r.push(Action::Press(Key::Tab)),
        Command::Enter => r.push(Action::Press(Key::Enter)),
        Command::Char(c) => r.push(Action::Press(key_for(c))),
        Command::Sleep(n) => r.push(Action::Pause(n)),
        Command::Void => {},
    }
    assert(r@ =~= command_actions(cmd));
    r
}

/// The state of a dispatcher, as a value.
pub struct DispatchState {
    /// Every action of the run, in order.
    pub plan: Seq<Action>,
    /// How many actions have been handed out.
    pub next: nat,
    /// An action was handed out and its outcome is still to come.
    pub awaiting: bool,
    /// How many handed-out key presses were reported failed.
    pub failures: nat,
}

/// Takes the outcome of the last action and hands out the next one: a
/// failure is counted and changes nothing else.
pub open spec fn step(s: DispatchState, last: Outcome) -> (DispatchState, Option<Action>) {
    let failures = if s.awaiting && last == Outcome::Failed {
        s.failures + 1
    } else {
        s.failures
    };
    if s.next < s.plan.len() {
        (DispatchState { next: s.next + 1, awaiting: true, failures, ..s }, Some(s.plan[s.next as int]))
    } else {
        (DispatchState { awaiting: false, failures, ..s }, None)
    }
}

/// The actions handed out when the outcomes `outcomes` are reported one
/// after the other.
pub open spec fn handed_out(s: DispatchState, outcomes: Seq<Outcome>) -> Seq<Action>
    decreases outcomes.len(),
{
    if outcomes.len() == 0 {
        Seq::empty()
    } else {
        let (t, a) = step(s, outcomes[0]);
        let rest = handed_out(t, outcomes.drop_first());
        match a {
            Some(x) => seq![x] + rest,
            None => rest,
        }
    }
}

/// Hands out the actions of one run, one at a time, and keeps count of the
/// key presses that the sink failed. A failure never stops the run.
pub struct Dispatcher {
    plan: Vec<Action>,
    next: usize,
    awaiting: bool,
    failures: usize,
}

impl View for Dispatcher {
    type V = DispatchState;

    closed spec fn view(&self) -> DispatchState {
        DispatchState {
            plan: self.plan@,
            next: self.next as nat,
            awaiting: self.awaiting,
            failures: self.failures as nat,
        }
    }
}

impl Dispatcher {
    /// Only handed-out actions are counted, each at most once.
    pub open spec fn wf(&self) -> bool {
        self@.failures + (if self@.awaiting {
            1int
        } else {
            0int
        }) <= self@.next <= self@.plan.len()
    }

    /// A dispatcher at the start of the plan `plan`.
    pub fn new(plan: Vec<Action>) -> (r: Dispatcher)
        ensures
            r@ == (DispatchState { plan: plan@, next: 0, awaiting: false, failures: 0 }),
            r.wf(),
    {
        Dispatcher { plan, next: 0, awaiting: false, failures: 0 }
    }

    /// Runs a command sequence in order, each command preceded by the fixed
    /// pause.
    pub fn paced(commands: &Vec<Command>) -> (r: Dispatcher)
        ensures
            r@ == (DispatchState {
                plan: paced_plan(commands@),
                next: 0,
                awaiting: false,
                failures: 0,
            }),
            r.wf(),
    {
        let mut plan: Vec<Action> = Vec::new();
        let mut i: usize = 0;
        while i < commands.len()
            invariant
                i <= commands.len(),
                plan@ == paced_plan(commands@.take(i as int)),
            decreases commands.len() - i,
        {
            assert(commands@.take(i + 1).drop_last() =~= commands@.take(i as int));
            plan.push(Action::Pause(DEFAULT_SLEEP_MILLIS));
            let mut actions = handle_cmd(commands[i]);
            plan.append(&mut actions);
            i = i + 1;
        }
        assert(commands@.take(commands.len() as int) =~= commands@);
        Dispatcher::new(plan)
    }

    /// Types a template: its command sequence, paced.
    pub fn for_template(template: String) -> (r: Dispatcher)
        ensures
            r@ == (DispatchState {
                plan: paced_plan(tokenize(template@)),
                next: 0,
                awaiting: false,
                failures: 0,
            }),
            r.wf(),
    {
        let commands = to_command_stream(template);
        Dispatcher::paced(&commands)
    }

    /// Carries out the command that a transport line holds, with no pacing;
    /// a line that holds none is rejected.
    pub fn for_line(line: &str) -> (r: Result<Dispatcher, DecodeError>)
        ensures
            match r {
                Ok(d) => decoding(line@) matches Some(c) && d@ == (DispatchState {
                    plan: command_actions(c),
                    next: 0,
                    awaiting: false,
                    failures: 0,
                }) && d.wf(),
                Err(e) => decoding(line@) is None && e.line@ == line@,
            },
    {
        match decode(line) {
            Ok(c) => Ok(Dispatcher::new(handle_cmd(c))),
            Err(e) => Err(e),
        }
    }

    /// Takes the outcome of the action handed out last (`Done` before the
    /// first) and hands out the next action, or `None` once the plan is
    /// done.
    pub fn next_action(&mut self, last: Outcome) -> (r: Option<Action>)
        requires
            old(self).wf(),
        ensures
            (final(self)@, r) == step(old(self)@, last),
            final(self).wf(),
    {
        if self.awaiting && last == Outcome::Failed {
            self.failures = self.failures + 1;
        }
        if self.next < self.plan.len() {
            let a = self.plan[self.next];
            self.next = self.next + 1;
            self.awaiting = true;
            Some(a)
        } else {
            self.awaiting = false;
            None
        }
    }

    /// Stops the run between two steps: no further action is handed out.
    pub fn cancel(&mut self)
        requires
            old(self).wf(),
        ensures
            final(self)@ == (DispatchState { next: old(self)@.plan.len(), ..old(self)@ }),
            final(self).wf(),
    {
        self.next = self.plan.len();
    }

    /// How many handed-out key presses were reported failed.
    pub fn failures(&self) -> (r: usize)
        ensures
            r == self@.failures,
    {
        self.failures
    }

    /// How many actions are still to be handed out.
    pub fn remaining(&self) -> (r: usize)
        requires
            self.wf(),
        ensures
            r == self@.plan.len() - self@.next,
    {
        self.plan.len() - self.next
    }
}

/// Whatever the sink reports for each action, a run from any state hands
/// out the rest of the plan, every action once and in order: a failed key
/// press never skips the ones after it.
pub proof fn failure_isolation(s: DispatchState, outcomes: Seq<Outcome>)
    requires
        s.next <= s.plan.len(),
        outcomes.len() == s.plan.len() - s.next,
    ensures
        handed_out(s, outcomes) == s.plan.subrange(s.next as int, s.plan.len() as int),
    decreases outcomes.len(),
{
    if outcomes.len() > 0 {
        let (t, a) = step(s, outcomes[0]);
        failure_isolation(t, outcomes.drop_first());
        assert(s.plan.subrange(s.next as int, s.plan.len() as int) =~= seq![s.plan[s.next as int]]
            + t.plan.subrange(t.next as int, t.plan.len() as int));
    } else {
        assert(s.plan.subrange(s.next as int, s.plan.len() as int) =~= Seq::<Action>::empty());
    }
}

} // verus!
