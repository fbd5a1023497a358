use vstd::prelude::*;
use vstd::utf8::encode_utf8;

use crate::error::{ConflictKey, Field, ServiceError};
use crate::store::{
    default_bg_color, eq_ignore_ascii_case, eq_ignore_ascii_case_spec,
    find_user_index, has_char, kind_color, role_admin, role_user, text_of, trim, trim_of,
    user_pos, BackgroundPref, Preferences, SettingsJson, User, UsersJson,
};
use crate::text::{str_chars, string_of_chars};

verus! {

/// Relies on `bcrypt::hash` at cost 10: the salt is random, but `bcrypt::verify`
/// reads the cost and salt back from the hash and accepts the password it was
/// made from; `None` when bcrypt reports an error.
#[verifier::external_body]
pub(crate) fn hash_password(password: &str) -> (r: Option<String>)
    ensures
        r matches Some(h) ==> bcrypt_matches(password@, h@),
{
    bcrypt::hash(password, 10).ok()
}

/// Whether `password` matches the bcrypt `hash`.
pub uninterp spec fn bcrypt_matches(password: Seq<char>, hash: Seq<char>) -> bool;

/// Relies on `bcrypt::verify`: whether the password hashes to the stored hash
/// under its salt and cost; a malformed hash counts as no match.
#[verifier::external_body]
pub(crate) fn verify_password(password: &str, hash: &str) -> (r: bool)
    ensures
        r == bcrypt_matches(password@, hash@),
{
    bcrypt::verify(password, hash).unwrap_or(false)
}

pub open spec fn byte_len(s: Seq<char>) -> nat {
    encode_utf8(s).len()
}

pub open spec fn is_username_char(c: char) -> bool {
    ('a' <= c && c <= 'z') || ('A' <= c && c <= 'Z') || ('0' <= c && c <= '9') || c == '.' || c
        == '_' || c == '-'
}

/// A self-chosen username: 3 to 32 letters, digits, `.`, `_` or `-`.
pub open spec fn valid_public_username(u: Seq<char>) -> bool {
    3 <= u.len() <= 32 && forall|i: int| 0 <= i < u.len() ==> is_username_char(#[trigger] u[i])
}

/// The loose e-mail shape the service asks for.
pub open spec fn valid_email_shape(e: Seq<char>) -> bool {
    e.contains('@') && e.contains('.')
}

pub open spec fn username_taken(s: Seq<User>, name: Seq<char>) -> bool {
    exists|i: int| 0 <= i < s.len() && s[i].username@ == name
}

pub open spec fn email_taken(s: Seq<User>, email: Seq<char>) -> bool {
    exists|i: int| 0 <= i < s.len() && eq_ignore_ascii_case_spec(s[i].email@, email)
}

/// Everything but the hash of a new plain account holds these values.
pub open spec fn is_new_account(u: User, name: Seq<char>, email: Seq<char>, now: u64) -> bool {
    &&& u.username@ == name
    &&& u.email@ == email
    &&& u.created_at == now
    &&& u.role@ == role_user()
    &&& u.preferences.background.kind@ == kind_color()
    &&& u.preferences.background.value@ == default_bg_color()
    &&& u.images@.len() == 0
}

/// The outcome of a self-service registration, before the password is hashed.
pub open spec fn register_decision(
    s: Seq<User>,
    blocked: bool,
    username: Seq<char>,
    email: Seq<char>,
    password: Seq<char>,
) -> Result<(), ServiceError> {
    let u = trim_of(username);
    let e = trim_of(email);
    if blocked {
        Err(ServiceError::AuthorizationDenied)
    } else if !valid_public_username(u) {
        Err(ServiceError::ValidationFailed(Field::Username))
    } else if !valid_email_shape(e) {
        Err(ServiceError::ValidationFailed(Field::Email))
    } else if byte_len(password) < 6 {
        Err(ServiceError::ValidationFailed(Field::Password))
    } else if username_taken(s, u) {
        Err(ServiceError::Conflict(ConflictKey::Username))
    } else if email_taken(s, e) {
        Err(ServiceError::Conflict(ConflictKey::Email))
    } else {
        Ok(())
    }
}

/// The outcome of an account creation by an administrator, before hashing.
pub open spec fn admin_create_decision(
    s: Seq<User>,
    actor: Seq<char>,
    username: Seq<char>,
    email: Seq<char>,
    password: Seq<char>,
) -> Result<(), ServiceError> {
    if actor != role_admin() {
        Err(ServiceError::AuthorizationDenied)
    } else if byte_len(trim_of(username)) < 3 || byte_len(username) > 32 {
        Err(ServiceError::ValidationFailed(Field::Username))
    } else if !email.contains('@') {
        Err(ServiceError::ValidationFailed(Field::Email))
    } else if byte_len(password) < 6 {
        Err(ServiceError::ValidationFailed(Field::Password))
    } else if username_taken(s, username) {
        Err(ServiceError::Conflict(ConflictKey::Username))
    } else if email_taken(s, email) {
        Err(ServiceError::Conflict(ConflictKey::Email))
    } else {
        Ok(())
    }
}

/// Whether some account is named `name`.
pub fn username_exists(users: &UsersJson, name: &str) -> (r: bool)
    ensures
        r == username_taken(users.users@, name@),
{
    match find_user_index(users, name) {
        Some(_) => true,
        None => false,
    }
}

/// Whether some account has `email`, ignoring ASCII case.
pub fn email_exists(users: &UsersJson, email: &str) -> (r: bool)
    ensures
        r == email_taken(users.users@, email@),
{
    let mut i: usize = 0;
    while i < users.users.len()
        invariant
            i <= users.users.len(),
            forall|j: int|
                0 <= j < i ==> !eq_ignore_ascii_case_spec(users.users@[j].email@, email@),
        decreases users.users.len() - i,
    {
        if eq_ignore_ascii_case(users.users[i].email.as_str(), email) {
            return true;
        }
        i = i + 1;
    }
    false
}

/// Whether `s` names the administrator.
pub fn is_admin_name(s: &str) -> (r: bool)
    ensures
        r == (s@ == role_admin()),
{
    let admin = text_of(vec!['a', 'd', 'm', 'i', 'n']);
    let t = string_of_chars(str_chars(s).as_slice());
    t == admin
}

fn is_username_char_exec(c: char) -> (r: bool)
    ensures
        r == is_username_char(c),
{
    ('a' <= c && c <= 'z') || ('A' <= c && c <= 'Z') || ('0' <= c && c <= '9') || c == '.' || c
        == '_' || c == '-'
}

pub fn valid_username(u: &str) -> (r: bool)
    ensures
        r == valid_public_username(u@),
{
    let cs = str_chars(u);
    if cs.len() < 3 || cs.len() > 32 {
        return false;
    }
    let mut i: usize = 0;
    while i < cs.len()
        invariant
            i <= cs.len(),
            cs@ == u@,
            forall|j: int| 0 <= j < i ==> is_username_char(#[trigger] cs@[j]),
        decreases cs.len() - i,
    {
        if !is_username_char_exec(cs[i]) {
            return false;
        }
        i = i + 1;
    }
    true
}

/// A plain account with the default preferences and no objects.
pub fn new_account(username: String, email: String, password_hash: String, now: u64) -> (r: User)
    ensures
        is_new_account(r, username@, email@, now),
        r.password_hash == password_hash,
{
    User {
        username,
        password_hash,
        email,
        created_at: now,
        role: text_of(vec!['u', 's', 'e', 'r']),
        preferences: Preferences {
            background: BackgroundPref {
                kind: text_of(vec!['c', 'o', 'l', 'o', 'r']),
                value: text_of(vec!['#', '0', '5', '0', '8', '0', 'f']),
            },
        },
        images: Vec::new(),
    }
}

/// Self-service registration. When registration is open and the input is
/// valid and new, the account is appended; `Err(HashingFailed)` only when the
/// password could not be hashed.
pub fn public_register(
    users: &mut UsersJson,
    settings: &SettingsJson,
    username: &str,
    email: &str,
    password: &str,
    now: u64,
) -> (r: Result<(), ServiceError>)
    ensures
        register_decision(
            old(users).users@,
            settings.register_blocked,
            username@,
            email@,
            password@,
        ) is Err ==> r == register_decision(
            old(users).users@,
            settings.register_blocked,
            username@,
            email@,
            password@,
        ),
        register_decision(
            old(users).users@,
            settings.register_blocked,
            username@,
            email@,
            password@,
        ) is Ok ==> (r is Ok || r == Err::<(), ServiceError>(ServiceError::HashingFailed)),
        r is Err ==> final(users).users@ == old(users).users@,
        r is Ok ==> final(users).users@.len() == old(users).users@.len() + 1
            && final(users).users@.drop_last() == old(users).users@ && is_new_account(
            final(users).users@.last(),
            trim_of(username@),
            trim_of(email@),
            now,
        ),
        r is Ok ==> bcrypt_matches(password@, final(users).users@.last().password_hash@),
{
    if settings.register_blocked {
        return Err(ServiceError::AuthorizationDenied);
    }
    let uname = trim(username);
    let mail = trim(email);
    if !valid_username(uname) {
        return Err(ServiceError::ValidationFailed(Field::Username));
    }
    if !(has_char(mail, '@') && has_char(mail, '.')) {
        return Err(ServiceError::ValidationFailed(Field::Email));
    }
    if password.as_bytes().len() < 6 {
        return Err(ServiceError::ValidationFailed(Field::Password));
    }
    if username_exists(users, uname) {
        return Err(ServiceError::Conflict(ConflictKey::Username));
    }
    if email_exists(users, mail) {
        return Err(ServiceError::Conflict(ConflictKey::Email));
    }
    let hash = match hash_password(password) {
        Some(h) => h,
        None => return Err(ServiceError::HashingFailed),
    };
    let account = new_account(
        string_of_chars(str_chars(uname).as_slice()),
        string_of_chars(str_chars(mail).as_slice()),
        hash,
        now,
    );
    users.users.push(account);
    assert(users.users@.drop_last() =~= old(users).users@);
    Ok(())
}

/// Account creation by the administrator.
pub fn admin_users_create(
    users: &mut UsersJson,
    actor: &str,
    username: &str,
    email: &str,
    password: &str,
    now: u64,
) -> (r: Result<(), ServiceError>)
    ensures
        admin_create_decision(old(users).users@, actor@, username@, email@, password@) is Err
            ==> r == admin_create_decision(old(users).users@, actor@, username@, email@, password@),
        admin_create_decision(old(users).users@, actor@, username@, email@, password@) is Ok ==> (r is Ok
            || r == Err::<(), ServiceError>(ServiceError::HashingFailed)),
        r is Err ==> final(users).users@ == old(users).users@,
        r is Ok ==> final(users).users@.len() == old(users).users@.len() + 1
            && final(users).users@.drop_last() == old(users).users@ && is_new_account(
            final(users).users@.last(),
            username@,
            email@,
            now,
        ),
        r is Ok ==> bcrypt_matches(password@, final(users).users@.last().password_hash@),
{
    if !is_admin_name(actor) {
        return Err(ServiceError::AuthorizationDenied);
    }
    if trim(username).as_bytes().len() < 3 || username.as_bytes().len() > 32 {
        return Err(ServiceError::ValidationFailed(Field::Username));
    }
    if !has_char(email, '@') {
        return Err(ServiceError::ValidationFailed(Field::Email));
    }
    if password.as_bytes().len() < 6 {
        return Err(ServiceError::ValidationFailed(Field::Password));
    }
    if username_exists(users, username) {
        return Err(ServiceError::Conflict(ConflictKey::Username));
    }
    if email_exists(users, email) {
        return Err(ServiceError::Conflict(ConflictKey::Email));
    }
    let hash = match hash_password(password) {
        Some(h) => h,
        None => return Err(ServiceError::HashingFailed),
    };
    let account = new_account(
        string_of_chars(str_chars(username).as_slice()),
        string_of_chars(str_chars(email).as_slice()),
        hash,
        now,
    );
    users.users.push(account);
    assert(users.users@.drop_last() =~= old(users).users@);
    Ok(())
}

/// Registering the same username or the same e-mail (in any ASCII case) a
/// second time is refused as a conflict.
pub proof fn lemma_duplicate_registration(
    s: Seq<User>,
    added: User,
    blocked: bool,
    username: Seq<char>,
    email: Seq<char>,
    password: Seq<char>,
    other_username: Seq<char>,
    other_email: Seq<char>,
    other_password: Seq<char>,
)
    requires
        register_decision(s, blocked, username, email, password) is Ok,
        added.username@ == trim_of(username),
        added.email@ == trim_of(email),
        !blocked,
        valid_public_username(trim_of(other_username)),
        valid_email_shape(trim_of(other_email)),
        byte_len(other_password) >= 6,
    ensures
        trim_of(other_username) == trim_of(username) ==> register_decision(
            s.push(added),
            blocked,
            other_username,
            other_email,
            other_password,
        ) == Err::<(), ServiceError>(ServiceError::Conflict(ConflictKey::Username)),
        trim_of(other_username) != trim_of(username) && eq_ignore_ascii_case_spec(
            trim_of(other_email),
            trim_of(email),
        ) ==> register_decision(s.push(added), blocked, other_username, other_email, other_password)
            matches Err(ServiceError::Conflict(_)),
{
    let s2 = s.push(added);
    let n = s.len() as int;
    assert(s2[n] == added);
    if trim_of(other_username) == trim_of(username) {
        assert(username_taken(s2, trim_of(other_username)));
    }
    if eq_ignore_ascii_case_spec(trim_of(other_email), trim_of(email)) {
        assert(eq_ignore_ascii_case_spec(s2[n].email@, trim_of(other_email)));
        assert(email_taken(s2, trim_of(other_email)));
    }
}

/// Lets only the administrator through.
pub fn require_admin(actor: &str) -> (r: Result<(), ServiceError>)
    ensures
        r is Ok <==> actor@ == role_admin(),
        r is Err ==> r == Err::<(), ServiceError>(ServiceError::AuthorizationDenied),
{
    if is_admin_name(actor) {
        Ok(())
    } else {
        Err(ServiceError::AuthorizationDenied)
    }
}

/// The registration lock, as the administrator reads it.
pub fn admin_register_get(settings: &SettingsJson, actor: &str) -> (r: Result<bool, ServiceError>)
    ensures
        actor@ == role_admin() ==> r == Ok::<bool, ServiceError>(settings.register_blocked),
        actor@ != role_admin() ==> r == Err::<bool, ServiceError>(ServiceError::AuthorizationDenied),
{
    require_admin(actor)?;
    Ok(settings.register_blocked)
}

/// The accounts collection that a fresh installation starts with: the
/// administrator alone.
pub fn bootstrap_users(admin_hash: String, now: u64) -> (r: UsersJson)
    ensures
        r.users@.len() == 1,
        r.users@[0].username@ == role_admin(),
        r.users@[0].role@ == role_admin(),
        r.users@[0].email@ == seq!['a', 'd', 'm', 'i', 'n', '@', 'e', 'x', 'a', 'm', 'p', 'l', 'e', '.', 'c', 'o', 'm'],
        r.users@[0].password_hash == admin_hash,
        r.users@[0].created_at == now,
        r.users@[0].images@.len() == 0,
{
    let mut admin = new_account(
        text_of(vec!['a', 'd', 'm', 'i', 'n']),
        text_of(vec!['a', 'd', 'm', 'i', 'n', '@', 'e', 'x', 'a', 'm', 'p', 'l', 'e', '.', 'c', 'o', 'm']),
        admin_hash,
        now,
    );
    admin.role = text_of(vec!['a', 'd', 'm', 'i', 'n']);
    let mut users: Vec<User> = Vec::new();
    users.push(admin);
    UsersJson { users }
}

/// Fills in a missing background preference on every account; `true` when
/// some account changed.
pub fn normalize_preferences(users: &mut UsersJson) -> (r: bool)
    ensures
        final(users).users@.len() == old(users).users@.len(),
        forall|j: int|
            0 <= j < old(users).users@.len() ==> {
                let o = old(users).users@[j];
                let n = #[trigger] final(users).users@[j];
                &&& n.username == o.username
                &&& n.email == o.email
                &&& n.password_hash == o.password_hash
                &&& n.role == o.role
                &&& n.created_at == o.created_at
                &&& n.images == o.images
                &&& n.preferences.background.kind@ == (if o.preferences.background.kind@.len()
                    == 0 {
                    kind_color()
                } else {
                    o.preferences.background.kind@
                })
                &&& n.preferences.background.value@ == (if o.preferences.background.value@.len()
                    == 0 {
                    default_bg_color()
                } else {
                    o.preferences.background.value@
                })
            },
        r == exists|j: int|
            0 <= j < old(users).users@.len() && (old(users).users@[j].preferences.background.kind@.len()
                == 0 || old(users).users@[j].preferences.background.value@.len() == 0),
{
    let mut changed = false;
    let mut i: usize = 0;
    while i < users.users.len()
        invariant
            i <= users.users.len() == old(users).users@.len(),
            forall|j: int|
                i <= j < users.users@.len() ==> users.users@[j] == old(users).users@[j],
            forall|j: int|
                0 <= j < i ==> {
                    let o = old(users).users@[j];
                    let n = #[trigger] users.users@[j];
                    &&& n.username == o.username
                    &&& n.email == o.email
                    &&& n.password_hash == o.password_hash
                    &&& n.role == o.role
                    &&& n.created_at == o.created_at
                    &&& n.images == o.images
                    &&& n.preferences.background.kind@ == (if o.preferences.background.kind@.len()
                        == 0 {
                        kind_color()
                    } else {
                        o.preferences.background.kind@
                    })
                    &&& n.preferences.background.value@ == (if o.preferences.background.value@.len()
                        == 0 {
                        default_bg_color()
                    } else {
                        o.preferences.background.value@
                    })
                },
            changed == exists|j: int|
                0 <= j < i && (old(users).users@[j].preferences.background.kind@.len() == 0
                    || old(users).users@[j].preferences.background.value@.len() == 0),
        decreases users.users.len() - i,
    {
        let mut u = users.users.remove(i);
        if u.preferences.background.kind.as_str().is_empty() {
            u.preferences.background.kind = text_of(vec!['c', 'o', 'l', 'o', 'r']);
            changed = true;
        }
        if u.preferences.background.value.as_str().is_empty() {
            u.preferences.background.value = text_of(vec!['#', '0', '5', '0', '8', '0', 'f']);
            changed = true;
        }
        users.users.insert(i, u);
        i = i + 1;
    }
    changed
}

/// The account that `username` and `password` log in as.
pub fn check_login(users: &UsersJson, username: &str, password: &str) -> (r: Result<
    usize,
    ServiceError,
>)
    ensures
        (username@.len() == 0 || password@.len() == 0) ==> r == Err::<usize, ServiceError>(
            ServiceError::ValidationFailed(Field::Username),
        ),
        username@.len() > 0 && password@.len() > 0 ==> match r {
            Ok(i) => user_pos(users.users@, username@) == Some(i as int) && i
                < users.users@.len() && bcrypt_matches(
                password@,
                users.users@[i as int].password_hash@,
            ),
            Err(e) => e == ServiceError::AuthenticationFailed && (user_pos(
                users.users@,
                username@,
            ) matches Some(i) ==> !bcrypt_matches(password@, users.users@[i].password_hash@)),
        },
{
    if username.is_empty() || password.is_empty() {
        return Err(ServiceError::ValidationFailed(Field::Username));
    }
    match find_user_index(users, username) {
        None => Err(ServiceError::AuthenticationFailed),
        Some(i) => {
            if verify_password(password, users.users[i].password_hash.as_str()) {
                Ok(i)
            } else {
                Err(ServiceError::AuthenticationFailed)
            }
        },
    }
}

} // verus!
