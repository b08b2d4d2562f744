use crate::text::{chars_of, occurs_at, text_at};
use vstd::prelude::*;

verus! {

/// The state of the vault as its command-line tool reports it.
#[derive(Debug, Clone, Copy, PartialEq, Eq, Structural)]
pub enum VaultStatus {
    Unlocked,
    Locked,
    Unauthenticated,
}

/// `t` stands somewhere in `s`.
pub open spec fn contains(s: Seq<char>, t: Seq<char>) -> bool {
    exists|i: int| occurs_at(s, t, i)
}

/// What the vault tool writes to its error stream for a wrong master
/// password.
pub open spec fn invalid_password_text() -> Seq<char> {
    "Invalid master password"@
}

/// A failed call of the vault tool failed because of a wrong master
/// password: its error stream says so.
pub fn is_invalid_password(stderr: &str) -> (r: bool)
    ensures
        r == contains(stderr@, invalid_password_text()),
{
    let s = chars_of(stderr);
    let t = chars_of("Invalid master password");
    proof {
        reveal_strlit("Invalid master password");
    }
    let mut i: usize = 0;
    while i < s.len()
        invariant
            s@ == stderr@,
            t@ == invalid_password_text(),
            t.len() > 0,
            forall|j: int| 0 <= j < i ==> !occurs_at(s@, t@, j),
        decreases s.len() - i,
    {
        if text_at(&s, i, &t) {
            return true;
        }
        i = i + 1;
    }
    false
}

/// The arguments of the vault tool that get a session key: a login where
/// the tool is not authenticated yet, else an unlock.
pub open spec fn session_arguments(status: VaultStatus, email: Seq<char>, password: Seq<char>) -> Seq<Seq<char>> {
    if status == VaultStatus::Unauthenticated {
        seq!["login"@, "--raw"@, email, password]
    } else {
        seq!["unlock"@, "--raw"@, password]
    }
}

/// The arguments of the vault tool that get a session key for `email` and
/// `password`, given the vault's status.
pub fn session_key_arguments(status: VaultStatus, email: &str, password: &str) -> (r: Vec<String>)
    ensures
        r@.map_values(|a: String| a@) == session_arguments(status, email@, password@),
{
    let mut r: Vec<String> = Vec::new();
    if status == VaultStatus::Unauthenticated {
        r.push(String::from_str("login"));
        r.push(String::from_str("--raw"));
        r.push(String::from_str(email));
    } else {
        r.push(String::from_str("unlock"));
        r.push(String::from_str("--raw"));
    }
    r.push(String::from_str(password));
    assert(r@.map_values(|a: String| a@) =~= session_arguments(status, email@, password@));
    r
}

} // verus!
