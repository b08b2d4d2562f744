use bitwarden_autotype::dispatch::{
    handle_cmd, key_for, Action, Dispatcher, Key, Outcome, DEFAULT_SLEEP_MILLIS,
};
use bitwarden_autotype::Command::{Char, Enter, Sleep, Tab, Void};

fn drain(mut d: Dispatcher) -> Vec<Action> {
    let mut out = Vec::new();
    let mut last = Outcome::Done;
    while let Some(a) = d.next_action(last) {
        out.push(a);
        last = Outcome::Done;
    }
    out
}

#[test]
fn each_command_is_preceded_by_the_fixed_pause() {
    let d = Dispatcher::for_template("ab".to_string());
    assert_eq!(
        drain(d),
        vec![
            Action::Pause(DEFAULT_SLEEP_MILLIS),
            Action::Press(Key::Char('a')),
            Action::Pause(20),
            Action::Press(Key::Char('b')),
        ]
    );
}

#[test]
fn sleep_adds_to_the_pause_and_void_does_nothing() {
    let d = Dispatcher::for_template("{SLEEP=100}{SLEEP=x}{ENTER}".to_string());
    assert_eq!(
        drain(d),
        vec![
            Action::Pause(20),
            Action::Pause(100),
            Action::Pause(20),
            Action::Pause(20),
            Action::Press(Key::Enter),
        ]
    );
}

#[test]
fn empty_template_has_an_empty_plan() {
    let d = Dispatcher::for_template(String::new());
    assert_eq!(d.remaining(), 0);
    assert_eq!(drain(d), Vec::<Action>::new());
}

#[test]
fn command_actions_per_variant() {
    assert_eq!(handle_cmd(Tab), vec![Action::Press(Key::Tab)]);
    assert_eq!(handle_cmd(Enter), vec![Action::Press(Key::Enter)]);
    assert_eq!(handle_cmd(Char('x')), vec![Action::Press(Key::Char('x'))]);
    assert_eq!(handle_cmd(Sleep(7)), vec![Action::Pause(7)]);
    assert_eq!(handle_cmd(Void), Vec::<Action>::new());
}

#[test]
fn tab_and_line_feed_characters_use_their_keys() {
    assert_eq!(key_for('\t'), Key::Tab);
    assert_eq!(key_for('\n'), Key::Enter);
    assert_eq!(key_for('q'), Key::Char('q'));
}

#[test]
fn a_failed_key_press_does_not_skip_the_rest() {
    let mut d = Dispatcher::paced(&vec![Char('a'), Char('b'), Char('c')]);
    let mut attempted = Vec::new();
    let mut last = Outcome::Done;
    while let Some(a) = d.next_action(last) {
        last = match a {
            Action::Press(Key::Char('b')) => {
                attempted.push('b');
                Outcome::Failed
            }
            Action::Press(Key::Char(c)) => {
                attempted.push(c);
                Outcome::Done
            }
            _ => Outcome::Done,
        };
    }
    assert_eq!(attempted, vec!['a', 'b', 'c']);
    assert_eq!(d.failures(), 1);
}

#[test]
fn a_failure_reported_before_anything_is_not_counted() {
    let mut d = Dispatcher::paced(&vec![Char('a')]);
    assert_eq!(d.next_action(Outcome::Failed), Some(Action::Pause(20)));
    assert_eq!(d.failures(), 0);
    assert_eq!(d.next_action(Outcome::Done), Some(Action::Press(Key::Char('a'))));
    assert_eq!(d.next_action(Outcome::Failed), None);
    assert_eq!(d.failures(), 1);
    assert_eq!(d.next_action(Outcome::Failed), None);
    assert_eq!(d.failures(), 1);
}

#[test]
fn a_transport_line_runs_unpaced() {
    let d = Dispatcher::for_line("{\"Char\":\"z\"}").ok().unwrap();
    assert_eq!(drain(d), vec![Action::Press(Key::Char('z'))]);
    let d = Dispatcher::for_line("{\"Sleep\":5}").ok().unwrap();
    assert_eq!(drain(d), vec![Action::Pause(5)]);
}

#[test]
fn a_garbage_transport_line_is_rejected() {
    match Dispatcher::for_line("}{") {
        Ok(_) => panic!("a garbage line was accepted"),
        Err(e) => assert_eq!(e.line, "}{"),
    }
}

#[test]
fn a_cancelled_run_hands_out_nothing_more() {
    let mut d = Dispatcher::for_template("abc".to_string());
    assert_eq!(d.next_action(Outcome::Done), Some(Action::Pause(20)));
    assert_eq!(d.next_action(Outcome::Done), Some(Action::Press(Key::Char('a'))));
    d.cancel();
    assert_eq!(d.remaining(), 0);
    assert_eq!(d.next_action(Outcome::Failed), None);
    assert_eq!(d.failures(), 1);
}
