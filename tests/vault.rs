use bitwarden_autotype::vault::{is_invalid_password, session_key_arguments, VaultStatus};

#[test]
fn invalid_password_is_recognised_in_the_error_stream() {
    assert!(is_invalid_password("? Invalid master password."));
    assert!(is_invalid_password("Invalid master password"));
    assert!(!is_invalid_password("Not found."));
    assert!(!is_invalid_password(""));
    assert!(!is_invalid_password("invalid master password"));
    assert!(!is_invalid_password("Invalid master passwor"));
}

#[test]
fn unauthenticated_vault_logs_in() {
    assert_eq!(
        session_key_arguments(VaultStatus::Unauthenticated, "me@example.com", "pw"),
        vec!["login", "--raw", "me@example.com", "pw"]
    );
}

#[test]
fn locked_or_unlocked_vault_unlocks() {
    assert_eq!(
        session_key_arguments(VaultStatus::Locked, "me@example.com", "pw"),
        vec!["unlock", "--raw", "pw"]
    );
    assert_eq!(
        session_key_arguments(VaultStatus::Unlocked, "me@example.com", "pw"),
        vec!["unlock", "--raw", "pw"]
    );
}
