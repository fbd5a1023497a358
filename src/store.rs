use vstd::prelude::*;

use crate::text::{str_chars, string_of_chars};

verus! {

/// Background choice of an account: a kind (`color`, `image`, ...) and its value.
pub struct BackgroundPref {
    pub kind: String,
    pub value: String,
}

pub struct Preferences {
    pub background: BackgroundPref,
}

/// Metadata of one stored object.
pub struct ImageMeta {
    pub id: String,
    /// The name on disk.
    pub filename: String,
    /// The name the uploader gave; display only.
    pub originalname: String,
    pub size: u64,
    pub url: String,
    pub uploaded_at: u64,
    pub owner: Option<String>,
}

/// An account, with the objects it owns copied in.
pub struct User {
    pub username: String,
    pub password_hash: String,
    pub email: String,
    pub created_at: u64,
    pub role: String,
    pub preferences: Preferences,
    pub images: Vec<ImageMeta>,
}

/// The accounts collection.
pub struct UsersJson {
    pub users: Vec<User>,
}

/// The global objects collection.
pub struct ImagesJson {
    pub images: Vec<ImageMeta>,
}

/// The settings record.
pub struct SettingsJson {
    pub register_blocked: bool,
}

pub open spec fn default_bg_color() -> Seq<char> {
    seq!['#', '0', '5', '0', '8', '0', 'f']
}

pub open spec fn role_user() -> Seq<char> {
    seq!['u', 's', 'e', 'r']
}

pub open spec fn role_admin() -> Seq<char> {
    seq!['a', 'd', 'm', 'i', 'n']
}

pub open spec fn kind_color() -> Seq<char> {
    seq!['c', 'o', 'l', 'o', 'r']
}

/// A `String` holding `v`.
pub fn text_of(v: Vec<char>) -> (r: String)
    ensures
        r@ == v@,
{
    string_of_chars(v.as_slice())
}

pub fn copy_string(s: &String) -> (r: String)
    ensures
        r == *s,
{
    s.clone()
}

impl ImageMeta {
    pub fn copy(&self) -> (r: ImageMeta)
        ensures
            r == *self,
    {
        let owner = match &self.owner {
            Some(o) => Some(copy_string(o)),
            None => None,
        };
        ImageMeta {
            id: copy_string(&self.id),
            filename: copy_string(&self.filename),
            originalname: copy_string(&self.originalname),
            size: self.size,
            url: copy_string(&self.url),
            uploaded_at: self.uploaded_at,
            owner,
        }
    }
}

impl SettingsJson {
    pub fn new() -> (r: SettingsJson)
        ensures
            !r.register_blocked,
    {
        SettingsJson { register_blocked: false }
    }
}

/// The code of a character with ASCII letters folded to lower case.
pub open spec fn ascii_lower(c: char) -> u32 {
    if 'A' <= c && c <= 'Z' {
        (c as u32 + 32) as u32
    } else {
        c as u32
    }
}

/// Equality up to the case of ASCII letters.
pub open spec fn eq_ignore_ascii_case_spec(a: Seq<char>, b: Seq<char>) -> bool {
    a.len() == b.len() && forall|i: int| 0 <= i < a.len() ==> ascii_lower(a[i]) == ascii_lower(b[i])
}

fn lower_char(c: char) -> (r: u32)
    ensures
        r == ascii_lower(c),
{
    if 'A' <= c && c <= 'Z' {
        c as u32 + 32
    } else {
        c as u32
    }
}

/// Compares two texts, ignoring the case of ASCII letters.
pub fn eq_ignore_ascii_case(a: &str, b: &str) -> (r: bool)
    ensures
        r == eq_ignore_ascii_case_spec(a@, b@),
{
    let ac = str_chars(a);
    let bc = str_chars(b);
    if ac.len() != bc.len() {
        return false;
    }
    let mut i: usize = 0;
    while i < ac.len()
        invariant
            i <= ac.len() == bc.len(),
            ac@ == a@,
            bc@ == b@,
            forall|j: int| 0 <= j < i ==> ascii_lower(ac@[j]) == ascii_lower(bc@[j]),
        decreases ac.len() - i,
    {
        if lower_char(ac[i]) != lower_char(bc[i]) {
            return false;
        }
        i = i + 1;
    }
    true
}

/// Whether `s` holds the character `c`.
pub fn has_char(s: &str, c: char) -> (r: bool)
    ensures
        r == s@.contains(c),
{
    let cs = str_chars(s);
    let mut i: usize = 0;
    while i < cs.len()
        invariant
            i <= cs.len(),
            cs@ == s@,
            forall|j: int| 0 <= j < i ==> cs@[j] != c,
        decreases cs.len() - i,
    {
        if cs[i] == c {
            return true;
        }
        i = i + 1;
    }
    false
}

/// Position of the first account named `name`.
pub open spec fn user_pos(s: Seq<User>, name: Seq<char>) -> Option<int> {
    if exists|i: int| 0 <= i < s.len() && s[i].username@ == name {
        Some(choose|i: int|
            0 <= i < s.len() && s[i].username@ == name && forall|j: int|
                0 <= j < i ==> s[j].username@ != name)
    } else {
        None
    }
}

proof fn lemma_user_pos(s: Seq<User>, name: Seq<char>, i: int)
    requires
        0 <= i < s.len(),
        s[i].username@ == name,
        forall|j: int| 0 <= j < i ==> s[j].username@ != name,
    ensures
        user_pos(s, name) == Some(i),
{
    assert(exists|k: int|
        0 <= k < s.len() && s[k].username@ == name && forall|j: int|
            0 <= j < k ==> s[j].username@ != name);
    let k = choose|k: int|
        0 <= k < s.len() && s[k].username@ == name && forall|j: int|
            0 <= j < k ==> s[j].username@ != name;
    if k < i {
        assert(s[k].username@ != name);
    }
    if i < k {
        assert(s[i].username@ != name);
    }
}

/// Index of the first account named `uname`.
pub fn find_user_index(users: &UsersJson, uname: &str) -> (r: Option<usize>)
    ensures
        r matches Some(i) ==> i < users.users@.len() && user_pos(users.users@, uname@) == Some(
            i as int,
        ) && users.users@[i as int].username@ == uname@,
        r is None ==> user_pos(users.users@, uname@) is None && forall|j: int|
            0 <= j < users.users@.len() ==> users.users@[j].username@ != uname@,
{
    let key = string_of_chars(str_chars(uname).as_slice());
    let mut i: usize = 0;
    while i < users.users.len()
        invariant
            i <= users.users.len(),
            key@ == uname@,
            forall|j: int| 0 <= j < i ==> users.users@[j].username@ != uname@,
        decreases users.users.len() - i,
    {
        if users.users[i].username == key {
            proof {
                lemma_user_pos(users.users@, uname@, i as int);
            }
            return Some(i);
        }
        i = i + 1;
    }
    None
}

/// The first account named `uname`.
pub fn find_user<'a>(users: &'a UsersJson, uname: &str) -> (r: Option<&'a User>)
    ensures
        r matches Some(u) ==> (user_pos(users.users@, uname@) matches Some(i) && *u
            == users.users@[i]),
        r is None ==> user_pos(users.users@, uname@) is None,
{
    match find_user_index(users, uname) {
        Some(i) => Some(&users.users[i]),
        None => None,
    }
}

/// The first account named `uname`, to change in place.
pub fn find_user_mut<'a>(users: &'a mut UsersJson, uname: &str) -> (r: Option<&'a mut User>)
    ensures
        match r {
            None => user_pos(old(users).users@, uname@) is None && final(users).users@ == old(
                users,
            ).users@,
            Some(u) => user_pos(old(users).users@, uname@) matches Some(i) && *u == old(
                users,
            ).users@[i] && final(users).users@ == old(users).users@.update(i, *final(u)),
        },
{
    match find_user_index(users, uname) {
        None => None,
        Some(i) => Some(&mut users.users[i]),
    }
}

/// Position of the first account whose e-mail folds to `email` under `lower_of`.
pub open spec fn email_pos(s: Seq<User>, lowered: Seq<char>) -> Option<int> {
    if exists|i: int| 0 <= i < s.len() && lower_of(s[i].email@) == lowered {
        Some(choose|i: int|
            0 <= i < s.len() && lower_of(s[i].email@) == lowered && forall|j: int|
                0 <= j < i ==> lower_of(s[j].email@) != lowered)
    } else {
        None
    }
}

/// Unicode lower-case mapping of a text.
pub uninterp spec fn lower_of(s: Seq<char>) -> Seq<char>;

/// Relies on `str::to_lowercase`: the result depends on the characters alone,
/// and an empty text stays empty.
#[verifier::external_body]
fn to_lower(s: &str) -> (r: String)
    ensures
        r@ == lower_of(s@),
        s@.len() == 0 ==> r@.len() == 0,
{
    s.to_lowercase()
}

/// A character with the Unicode `White_Space` property, as `char::is_whitespace` reads it.
pub open spec fn is_unicode_space(c: char) -> bool {
    ('\u{9}' <= c && c <= '\u{d}') || c == ' ' || c == '\u{85}' || c == '\u{a0}' || c
        == '\u{1680}' || ('\u{2000}' <= c && c <= '\u{200a}') || c == '\u{2028}' || c
        == '\u{2029}' || c == '\u{202f}' || c == '\u{205f}' || c == '\u{3000}'
}

/// `s` without its leading whitespace.
pub open spec fn trim_start_of(s: Seq<char>) -> Seq<char>
    decreases s.len(),
{
    if s.len() > 0 && is_unicode_space(s[0]) {
        trim_start_of(s.drop_first())
    } else {
        s
    }
}

/// `s` without its trailing whitespace.
pub open spec fn trim_end_of(s: Seq<char>) -> Seq<char>
    decreases s.len(),
{
    if s.len() > 0 && is_unicode_space(s.last()) {
        trim_end_of(s.drop_last())
    } else {
        s
    }
}

/// A text without its leading and trailing whitespace.
pub open spec fn trim_of(s: Seq<char>) -> Seq<char> {
    trim_end_of(trim_start_of(s))
}

/// A text that neither begins nor ends with whitespace is its own trim.
pub proof fn lemma_trim_unchanged(s: Seq<char>)
    requires
        s.len() > 0,
        !is_unicode_space(s[0]),
        !is_unicode_space(s.last()),
    ensures
        trim_of(s) == s,
{
    assert(trim_start_of(s) == s);
}

/// Relies on `str::trim`, which removes the leading and trailing characters
/// that have the `White_Space` property.
#[verifier::external_body]
pub(crate) fn trim(s: &str) -> (r: &str)
    ensures
        r@ == trim_of(s@),
{
    s.trim()
}

/// The account whose e-mail matches `email`, ignoring case and surrounding
/// whitespace; `None` for a blank address.
pub fn find_user_by_email<'a>(users: &'a UsersJson, email: &str) -> (r: Option<&'a User>)
    ensures
        lower_of(trim_of(email@)).len() == 0 ==> r is None,
        lower_of(trim_of(email@)).len() > 0 ==> (match r {
            Some(u) => email_pos(users.users@, lower_of(trim_of(email@))) matches Some(i) && *u
                == users.users@[i],
            None => email_pos(users.users@, lower_of(trim_of(email@))) is None,
        }),
{
    let lower = to_lower(trim(email));
    if lower.as_str().is_empty() {
        return None;
    }
    let ghost target = lower_of(trim_of(email@));
    let mut i: usize = 0;
    while i < users.users.len()
        invariant
            i <= users.users.len(),
            lower@ == target,
            target == lower_of(trim_of(email@)),
            target.len() > 0,
            forall|j: int| 0 <= j < i ==> lower_of(users.users@[j].email@) != target,
        decreases users.users.len() - i,
    {
        let candidate = to_lower(users.users[i].email.as_str());
        if candidate == lower {
            proof {
                let s = users.users@;
                assert(exists|k: int|
                    0 <= k < s.len() && lower_of(s[k].email@) == target && forall|j: int|
                        0 <= j < k ==> lower_of(s[j].email@) != target) by {
                    assert(lower_of(s[i as int].email@) == target);
                }
                let k = choose|k: int|
                    0 <= k < s.len() && lower_of(s[k].email@) == target && forall|j: int|
                        0 <= j < k ==> lower_of(s[j].email@) != target;
                if k < i {
                    assert(lower_of(s[k].email@) != target);
                }
                if i < k {
                    assert(lower_of(s[i as int].email@) != target);
                }
            }
            return Some(&users.users[i]);
        }
        i = i + 1;
    }
    None
}

} // verus!
