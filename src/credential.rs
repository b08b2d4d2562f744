use crate::text::{chars_of, occurs_at, text_at};
use vstd::prelude::*;

verus! {

/// The pattern typed for an item whose notes name none.
pub const DEFAULT_PATTERN: &'static str = "{USERNAME}{TAB}{PASSWORD}{ENTER}";

/// The kind of a vault item, as the vault numbers it.
#[derive(Debug, Clone, Copy, PartialEq, Eq, Structural)]
pub enum ItemType {
    Login,
    SecureNote,
    Card,
    Identity,
}

impl ItemType {
    /// The vault's number for this kind.
    pub fn code(&self) -> (r: u8)
        ensures
            r == item_type_code(*self),
    {
        match self {
            ItemType::Login => 1,
            ItemType::SecureNote => 2,
            ItemType::Card => 3,
            ItemType::Identity => 4,
        }
    }

    /// The kind that the vault numbers `code`, if any.
    pub fn from_code(code: u8) -> (r: Option<ItemType>)
        ensures
            r matches Some(t) ==> item_type_code(t) == code,
            r is None <==> !(1 <= code <= 4),
    {
        match code {
            1 => Some(ItemType::Login),
            2 => Some(ItemType::SecureNote),
            3 => Some(ItemType::Card),
            4 => Some(ItemType::Identity),
            _ => None,
        }
    }
}

pub open spec fn item_type_code(t: ItemType) -> u8 {
    match t {
        ItemType::Login => 1,
        ItemType::SecureNote => 2,
        ItemType::Card => 3,
        ItemType::Identity => 4,
    }
}

/// The login fields of a vault item.
#[derive(Debug, Clone)]
pub struct Login {
    pub username: Option<String>,
    pub password: Option<String>,
}

/// A vault item as the vault lists it.
#[derive(Debug, Clone)]
pub struct LoginItem {
    pub id: String,
    pub item_type: ItemType,
    pub name: String,
    pub notes: Option<String>,
    pub login: Option<Login>,
}

/// `Autotype: `, which marks the line of the notes that holds an item's own
/// pattern.
pub open spec fn autotype_marker() -> Seq<char> {
    seq!['A', 'u', 't', 'o', 't', 'y', 'p', 'e', ':', ' ']
}

/// The first position at or after `k` that holds a line feed, or the length
/// of `s` where there is none.
pub open spec fn line_end(s: Seq<char>, k: int) -> int
    decreases s.len() - k,
{
    if k < 0 || k >= s.len() {
        s.len() as int
    } else if s[k] == '\n' {
        k
    } else {
        line_end(s, k + 1)
    }
}

/// A line of `s` starts at `i`.
pub open spec fn line_start(s: Seq<char>, i: int) -> bool {
    0 <= i < s.len() && (i == 0 || s[i - 1] == '\n')
}

/// Where the text of the line from `i` ends: before its line feed, and
/// before a carriage return right in front of that.
pub open spec fn text_end(s: Seq<char>, i: int) -> int {
    let e = line_end(s, i);
    if e < s.len() && e > i && s[e - 1] == '\r' {
        e - 1
    } else {
        e
    }
}

/// The line that starts at `i` begins with the marker.
pub open spec fn marked_line(s: Seq<char>, i: int) -> bool {
    line_start(s, i) && i + autotype_marker().len() <= text_end(s, i) && occurs_at(
        s,
        autotype_marker(),
        i,
    )
}

/// The line that starts at `i` is the first one that begins with the marker.
pub open spec fn first_marked_line(s: Seq<char>, i: int) -> bool {
    marked_line(s, i) && forall|j: int| 0 <= j < i ==> !marked_line(s, j)
}

/// What follows the marker on the first marked line of `notes`, if one is.
pub open spec fn pattern_in(notes: Seq<char>) -> Option<Seq<char>> {
    if exists|i: int| first_marked_line(notes, i) {
        let i = choose|i: int| first_marked_line(notes, i);
        Some(notes.subrange(i + autotype_marker().len(), text_end(notes, i)))
    } else {
        None
    }
}

/// `s` with each occurrence of `pat` from position `i` on, taken from the
/// left without overlap, replaced by `rep`.
pub open spec fn replace_from(s: Seq<char>, pat: Seq<char>, rep: Seq<char>, i: int) -> Seq<char>
    decreases s.len() - i,
{
    if i < 0 || i >= s.len() {
        Seq::empty()
    } else if pat.len() > 0 && occurs_at(s, pat, i) {
        rep + replace_from(s, pat, rep, i + pat.len())
    } else {
        seq![s[i]] + replace_from(s, pat, rep, i + 1)
    }
}

pub open spec fn replace_all(s: Seq<char>, pat: Seq<char>, rep: Seq<char>) -> Seq<char> {
    replace_from(s, pat, rep, 0)
}

pub open spec fn username_hole() -> Seq<char> {
    "{USERNAME}"@
}

pub open spec fn password_hole() -> Seq<char> {
    "{PASSWORD}"@
}

/// An optional field's text, empty where it is absent.
pub open spec fn field_text(f: Option<String>) -> Seq<char> {
    match f {
        Some(s) => s@,
        None => Seq::empty(),
    }
}

pub open spec fn username_of(item: LoginItem) -> Seq<char> {
    match item.login {
        Some(l) => field_text(l.username),
        None => Seq::empty(),
    }
}

pub open spec fn password_of(item: LoginItem) -> Seq<char> {
    match item.login {
        Some(l) => field_text(l.password),
        None => Seq::empty(),
    }
}

/// The item's own pattern, where its notes hold one.
pub open spec fn item_pattern(item: LoginItem) -> Option<Seq<char>> {
    match item.notes {
        Some(n) => pattern_in(n@),
        None => None,
    }
}

/// The template typed for an item: its pattern (the default where it has
/// none) with the username, then the password, put into their holes.
pub open spec fn template_of(item: LoginItem) -> Seq<char> {
    let pattern = match item_pattern(item) {
        Some(p) => p,
        None => DEFAULT_PATTERN@,
    };
    replace_all(replace_all(pattern, username_hole(), username_of(item)), password_hole(), password_of(item))
}

fn line_end_exec(s: &Vec<char>, k: usize) -> (r: usize)
    requires
        k <= s.len(),
    ensures
        r == line_end(s@, k as int),
        k <= r <= s.len(),
        r < s.len() ==> s@[r as int] == '\n',
        forall|j: int| k <= j < r ==> s@[j] != '\n',
{
    let mut j: usize = k;
    while j < s.len()
        invariant
            k <= j <= s.len(),
            line_end(s@, k as int) == line_end(s@, j as int),
            forall|m: int| k <= m < j ==> s@[m] != '\n',
        decreases s.len() - j,
    {
        if s[j] == '\n' {
            return j;
        }
        j = j + 1;
    }
    j
}

/// The characters `s[from..to]` as a string.
fn collect_range(s: &Vec<char>, from: usize, to: usize) -> (r: String)
    requires
        from <= to <= s.len(),
    ensures
        r@ == s@.subrange(from as int, to as int),
{
    let mut r = String::new();
    let mut k: usize = from;
    while k < to
        invariant
            from <= k <= to <= s.len(),
            r@ == s@.subrange(from as int, k as int),
        decreases to - k,
    {
        r.push(s[k]);
        k = k + 1;
        assert(r@ =~= s@.subrange(from as int, k as int));
    }
    r
}

/// What follows `Autotype: ` on the first line of `notes` that begins with
/// it. Lines end at a line feed, with a carriage return right before it
/// dropped.
pub fn pattern_in_notes(notes: &str) -> (r: Option<String>)
    ensures
        match r {
            Some(p) => pattern_in(notes@) == Some(p@),
            None => pattern_in(notes@) is None,
        },
{
    let s = chars_of(notes);
    let marker = chars_of("Autotype: ");
    proof {
        reveal_strlit("Autotype: ");
        assert(marker@ =~= autotype_marker());
    }
    let mut i: usize = 0;
    while i < s.len()
        invariant
            i <= s.len(),
            s@ == notes@,
            marker@ == autotype_marker(),
            i < s.len() ==> (i == 0 || s@[i - 1] == '\n'),
            forall|j: int| 0 <= j < i ==> !marked_line(s@, j),
        decreases s.len() - i,
    {
        let e = line_end_exec(&s, i);
        let end = if e < s.len() && e > i && s[e - 1] == '\r' {
            e - 1
        } else {
            e
        };
        assert(end == text_end(s@, i as int));
        if end >= 10 && i <= end - 10 && text_at(&s, i, &marker) {
            assert(first_marked_line(s@, i as int));
            let p = collect_range(&s, i + 10, end);
            proof {
                let k = choose|k: int| first_marked_line(s@, k);
                assert(k == i) by {
                    if k < i {
                        assert(!marked_line(s@, k));
                    } else if k > i {
                        assert(!marked_line(s@, i as int));
                    }
                }
                assert(autotype_marker().len() == 10);
                assert(pattern_in(s@) == Some(s@.subrange(i + 10, text_end(s@, i as int))));
            }
            return Some(p);
        }
        proof {
            assert forall|j: int| 0 <= j < e + 1 implies !marked_line(s@, j) by {
                if i < j <= e && j < s.len() {
                    assert(j - 1 >= i);
                    assert(s@[j - 1] != '\n');
                }
            }
        }
        if e < s.len() {
            i = e + 1;
        } else {
            i = e;
        }
    }
    proof {
        assert forall|j: int| !first_marked_line(s@, j) by {
            if first_marked_line(s@, j) {
                assert(j < s.len());
            }
        }
    }
    None
}

/// Replaces each occurrence of `pat` in `s`, taken from the left without
/// overlap, by `rep`.
pub fn replace_all_exec(s: &str, pat: &str, rep: &str) -> (r: String)
    ensures
        r@ == replace_all(s@, pat@, rep@),
{
    let sc = chars_of(s);
    let pc = chars_of(pat);
    let mut out = String::new();
    let mut i: usize = 0;
    while i < sc.len()
        invariant
            i <= sc.len(),
            sc@ == s@,
            pc@ == pat@,
            out@ + replace_from(s@, pat@, rep@, i as int) == replace_all(s@, pat@, rep@),
        decreases sc.len() - i,
    {
        if pc.len() > 0 && text_at(&sc, i, &pc) {
            let ghost before = out@;
            out.append(rep);
            assert(before + replace_from(s@, pat@, rep@, i as int) == out@ + replace_from(
                s@,
                pat@,
                rep@,
                i + pc.len(),
            ));
            i = i + pc.len();
        } else {
            let ghost before = out@;
            out.push(sc[i]);
            assert(before + replace_from(s@, pat@, rep@, i as int) =~= out@ + replace_from(
                s@,
                pat@,
                rep@,
                i + 1,
            ));
            i = i + 1;
        }
    }
    assert(out@ =~= replace_all(s@, pat@, rep@));
    out
}

fn field_str(f: &Option<String>) -> (r: &str)
    ensures
        r@ == field_text(*f),
{
    match f {
        Some(s) => s.as_str(),
        None => {
            proof {
                reveal_strlit("");
            }
            ""
        },
    }
}

impl LoginItem {
    /// The pattern that this item's notes name, on a line that begins with
    /// `Autotype: `.
    pub fn autotype_pattern(&self) -> (r: Option<String>)
        ensures
            match r {
                Some(p) => item_pattern(*self) == Some(p@),
                None => item_pattern(*self) is None,
            },
    {
        match &self.notes {
            Some(n) => pattern_in_notes(n.as_str()),
            None => None,
        }
    }

    /// The template to type for this item: its pattern, or the default one,
    /// with `{USERNAME}` and then `{PASSWORD}` replaced by the login's
    /// fields (empty where absent).
    pub fn autotype_template(&self) -> (r: String)
        ensures
            r@ == template_of(*self),
    {
        let pattern = match self.autotype_pattern() {
            Some(p) => p,
            None => String::from_str(DEFAULT_PATTERN),
        };
        let (user, pass) = match &self.login {
            Some(l) => (field_str(&l.username), field_str(&l.password)),
            None => ("", ""),
        };
        proof {
            reveal_strlit("");
        }
        let ghost pat = match item_pattern(*self) {
            Some(p) => p,
            None => DEFAULT_PATTERN@,
        };
        assert(pattern@ == pat);
        assert(user@ == username_of(*self));
        assert(pass@ == password_of(*self));
        let with_user = replace_all_exec(pattern.as_str(), "{USERNAME}", user);
        assert(with_user@ == replace_all(pat, username_hole(), username_of(*self)));
        replace_all_exec(with_user.as_str(), "{PASSWORD}", pass)
    }
}

/// What a hotkey press leads to, given the logins that match the active
/// window.
#[derive(Debug, Clone, Copy, PartialEq, Eq, Structural)]
pub enum Selection {
    /// No login matches.
    NoMatch,
    /// Exactly one matches: type it.
    Single,
    /// Several match: the user picks one.
    AskUser,
}

/// Decides what a hotkey press does with the logins that match.
pub fn handle_hotkey(logins: &Vec<LoginItem>) -> (r: Selection)
    ensures
        logins.len() == 0 ==> r == Selection::NoMatch,
        logins.len() == 1 ==> r == Selection::Single,
        logins.len() > 1 ==> r == Selection::AskUser,
{
    if logins.len() == 0 {
        Selection::NoMatch
    } else if logins.len() == 1 {
        Selection::Single
    } else {
        Selection::AskUser
    }
}

} // verus!
