use bitwarden_autotype::credential::{
    handle_hotkey, ItemType, Login, LoginItem, Selection, DEFAULT_PATTERN,
};

fn item(notes: Option<&str>, login: Option<(Option<&str>, Option<&str>)>) -> LoginItem {
    LoginItem {
        id: "id-1".to_string(),
        item_type: ItemType::Login,
        name: "Example".to_string(),
        notes: notes.map(|n| n.to_string()),
        login: login.map(|(u, p)| Login {
            username: u.map(|s| s.to_string()),
            password: p.map(|s| s.to_string()),
        }),
    }
}

#[test]
fn pattern_comes_from_the_marked_line() {
    let it = item(Some("first\nAutotype: {USERNAME}{ENTER}\nlast"), None);
    assert_eq!(it.autotype_pattern(), Some("{USERNAME}{ENTER}".to_string()));
}

#[test]
fn pattern_line_drops_a_carriage_return() {
    let it = item(Some("Autotype: {PASSWORD}\r\nnext"), None);
    assert_eq!(it.autotype_pattern(), Some("{PASSWORD}".to_string()));
}

#[test]
fn first_marked_line_wins() {
    let it = item(Some("Autotype: one\nAutotype: two"), None);
    assert_eq!(it.autotype_pattern(), Some("one".to_string()));
}

#[test]
fn no_pattern_without_a_marked_line() {
    assert_eq!(item(None, None).autotype_pattern(), None);
    assert_eq!(item(Some(""), None).autotype_pattern(), None);
    assert_eq!(item(Some("x Autotype: no"), None).autotype_pattern(), None);
    assert_eq!(item(Some("Autotype:no"), None).autotype_pattern(), None);
}

#[test]
fn marker_alone_gives_an_empty_pattern() {
    let it = item(Some("Autotype: "), None);
    assert_eq!(it.autotype_pattern(), Some(String::new()));
}

#[test]
fn default_template_fills_username_and_password() {
    let it = item(None, Some((Some("alice"), Some("s3cret"))));
    assert_eq!(it.autotype_template(), "alice{TAB}s3cret{ENTER}");
    assert_eq!(DEFAULT_PATTERN, "{USERNAME}{TAB}{PASSWORD}{ENTER}");
}

#[test]
fn missing_fields_become_empty() {
    assert_eq!(item(None, None).autotype_template(), "{TAB}{ENTER}");
    let it = item(None, Some((Some("bob"), None)));
    assert_eq!(it.autotype_template(), "bob{TAB}{ENTER}");
}

#[test]
fn custom_pattern_with_repeated_holes() {
    let it = item(
        Some("Autotype: {USERNAME}{SLEEP=50}{USERNAME}{TAB}{PASSWORD}"),
        Some((Some("u"), Some("p"))),
    );
    assert_eq!(it.autotype_template(), "u{SLEEP=50}u{TAB}p");
}

#[test]
fn username_is_put_in_before_the_password() {
    let it = item(None, Some((Some("{PASSWORD}"), Some("pw"))));
    assert_eq!(it.autotype_template(), "pw{TAB}pw{ENTER}");
}

#[test]
fn hotkey_selection_by_number_of_logins() {
    assert_eq!(handle_hotkey(&vec![]), Selection::NoMatch);
    assert_eq!(handle_hotkey(&vec![item(None, None)]), Selection::Single);
    assert_eq!(
        handle_hotkey(&vec![item(None, None), item(None, None)]),
        Selection::AskUser
    );
}

#[test]
fn item_type_codes() {
    assert_eq!(ItemType::Login.code(), 1);
    assert_eq!(ItemType::Identity.code(), 4);
    assert_eq!(ItemType::from_code(3), Some(ItemType::Card));
    assert_eq!(ItemType::from_code(2), Some(ItemType::SecureNote));
    assert_eq!(ItemType::from_code(0), None);
    assert_eq!(ItemType::from_code(5), None);
}
