use vstd::prelude::*;

use crate::accounts::{is_admin_name, username_taken, valid_email_shape};
use crate::error::{ConflictKey, Field, ServiceError};
use crate::store::{
    copy_string, eq_ignore_ascii_case, eq_ignore_ascii_case_spec, find_user_index, has_char,
    role_admin, trim, trim_of, user_pos, ImageMeta, ImagesJson, SettingsJson, User, UsersJson,
};
use crate::text::{str_chars, string_of_chars};

verus! {

/// The key an object is looked up by: its id, or its name on disk.
pub open spec fn key_of(m: ImageMeta, by_id: bool) -> Seq<char> {
    if by_id {
        m.id@
    } else {
        m.filename@
    }
}

/// The objects of `s` whose key differs from `key`, in order.
pub open spec fn without_key(s: Seq<ImageMeta>, key: Seq<char>, by_id: bool) -> Seq<ImageMeta>
    decreases s.len(),
{
    if s.len() == 0 {
        s
    } else if key_of(s.last(), by_id) == key {
        without_key(s.drop_last(), key, by_id)
    } else {
        without_key(s.drop_last(), key, by_id).push(s.last())
    }
}

/// How many objects of `s` carry `id`.
pub open spec fn count_id(s: Seq<ImageMeta>, id: Seq<char>) -> nat
    decreases s.len(),
{
    if s.len() == 0 {
        0
    } else {
        count_id(s.drop_last(), id) + if s.last().id@ == id {
            1nat
        } else {
            0nat
        }
    }
}

/// Two accounts that agree on everything but their object lists.
pub open spec fn same_account(a: User, b: User) -> bool {
    &&& a.username == b.username
    &&& a.password_hash == b.password_hash
    &&& a.email == b.email
    &&& a.created_at == b.created_at
    &&& a.role == b.role
    &&& a.preferences == b.preferences
}

/// Removes from `v` every object whose key is `key`.
pub fn retain_without(v: &mut Vec<ImageMeta>, key: &str, by_id: bool)
    ensures
        final(v)@ == without_key(old(v)@, key@, by_id),
{
    let k = string_of_chars(str_chars(key).as_slice());
    let ghost orig = v@;
    let ghost n = v@.len() as int;
    let ghost mut seen: int = 0;
    let mut i: usize = 0;
    assert(orig.subrange(0, 0) =~= Seq::<ImageMeta>::empty());
    assert(orig.subrange(0, n) =~= orig);
    while i < v.len()
        invariant
            k@ == key@,
            0 <= seen <= n,
            n == orig.len(),
            i == without_key(orig.subrange(0, seen), key@, by_id).len(),
            v@ == without_key(orig.subrange(0, seen), key@, by_id) + orig.subrange(seen, n),
        decreases n - seen,
    {
        let ghost before = without_key(orig.subrange(0, seen), key@, by_id);
        assert(v@[i as int] == orig[seen]);
        assert(orig.subrange(0, seen + 1).drop_last() =~= orig.subrange(0, seen));
        assert(orig.subrange(0, seen + 1).last() == orig[seen]);
        let hit = if by_id {
            v[i].id == k
        } else {
            v[i].filename == k
        };
        if hit {
            v.remove(i);
            assert(v@ =~= before + orig.subrange(seen + 1, n));
        } else {
            i = i + 1;
            assert(v@ =~= before.push(orig[seen]) + orig.subrange(seen + 1, n));
        }
        proof {
            seen = seen + 1;
        }
    }
    assert(orig.subrange(seen, n) =~= Seq::<ImageMeta>::empty());
    assert(v@ =~= without_key(orig.subrange(0, n), key@, by_id));
}

/// Whether `m` belongs to account `name`.
pub open spec fn owned_by(m: ImageMeta, name: Seq<char>) -> bool {
    match m.owner {
        Some(o) => o@ == name,
        None => false,
    }
}

/// The objects of `s` that do not belong to `name`, in order.
pub open spec fn without_owner(s: Seq<ImageMeta>, name: Seq<char>) -> Seq<ImageMeta>
    decreases s.len(),
{
    if s.len() == 0 {
        s
    } else if owned_by(s.last(), name) {
        without_owner(s.drop_last(), name)
    } else {
        without_owner(s.drop_last(), name).push(s.last())
    }
}

/// The on-disk names of the objects of `s` that belong to `name`, in order.
pub open spec fn owned_filenames(s: Seq<ImageMeta>, name: Seq<char>) -> Seq<Seq<char>>
    decreases s.len(),
{
    if s.len() == 0 {
        Seq::empty()
    } else if owned_by(s.last(), name) {
        owned_filenames(s.drop_last(), name).push(s.last().filename@)
    } else {
        owned_filenames(s.drop_last(), name)
    }
}

pub open spec fn string_views(v: Seq<String>) -> Seq<Seq<char>> {
    v.map_values(|x: String| x@)
}

/// Removes from the global collection every object of account `owner`, the
/// cascade of deleting that account; returns the on-disk names of the
/// removed objects, whose files go too.
pub fn remove_global_by_owner(images: &mut ImagesJson, owner: &str) -> (r: Vec<String>)
    ensures
        final(images).images@ == without_owner(old(images).images@, owner@),
        string_views(r@) == owned_filenames(old(images).images@, owner@),
{
    let k = string_of_chars(str_chars(owner).as_slice());
    let ghost orig = images.images@;
    let ghost n = orig.len() as int;
    let ghost mut seen: int = 0;
    let mut removed: Vec<String> = Vec::new();
    let mut i: usize = 0;
    assert(orig.subrange(0, 0) =~= Seq::<ImageMeta>::empty());
    assert(orig.subrange(0, n) =~= orig);
    assert(string_views(removed@) =~= Seq::<Seq<char>>::empty());
    while i < images.images.len()
        invariant
            k@ == owner@,
            0 <= seen <= n,
            n == orig.len(),
            i == without_owner(orig.subrange(0, seen), owner@).len(),
            images.images@ == without_owner(orig.subrange(0, seen), owner@) + orig.subrange(seen, n),
            string_views(removed@) == owned_filenames(orig.subrange(0, seen), owner@),
        decreases n - seen,
    {
        let ghost before = without_owner(orig.subrange(0, seen), owner@);
        let ghost names = removed@;
        assert(images.images@[i as int] == orig[seen]);
        assert(orig.subrange(0, seen + 1).drop_last() =~= orig.subrange(0, seen));
        assert(orig.subrange(0, seen + 1).last() == orig[seen]);
        let hit = match &images.images[i].owner {
            Some(o) => *o == k,
            None => false,
        };
        if hit {
            let m = images.images.remove(i);
            removed.push(m.filename);
            assert(images.images@ =~= before + orig.subrange(seen + 1, n));
            assert(string_views(removed@) =~= string_views(names).push(orig[seen].filename@));
        } else {
            i = i + 1;
            assert(images.images@ =~= before.push(orig[seen]) + orig.subrange(seen + 1, n));
        }
        proof {
            seen = seen + 1;
        }
    }
    assert(orig.subrange(seen, n) =~= Seq::<ImageMeta>::empty());
    assert(images.images@ =~= without_owner(orig.subrange(0, n), owner@));
    removed
}

/// Appends an object to the global collection.
pub fn insert_object(images: &mut ImagesJson, meta: ImageMeta)
    ensures
        final(images).images@ == old(images).images@.push(meta),
{
    images.images.push(meta);
}

/// Appends an object to the owner's copy, when the owner exists.
pub fn attach_to_owner(users: &mut UsersJson, owner: &str, meta: ImageMeta)
    ensures
        final(users).users@.len() == old(users).users@.len(),
        match user_pos(old(users).users@, owner@) {
            None => final(users).users@ == old(users).users@,
            Some(i) => {
                &&& forall|j: int|
                    0 <= j < old(users).users@.len() && j != i ==> final(users).users@[j] == old(
                        users,
                    ).users@[j]
                &&& same_account(final(users).users@[i], old(users).users@[i])
                &&& final(users).users@[i].images@ == old(users).users@[i].images@.push(meta)
            },
        },
{
    match find_user_index(users, owner) {
        None => {},
        Some(i) => {
            let mut u = users.users.remove(i);
            u.images.push(meta);
            users.users.insert(i, u);
        },
    }
}

/// Records a finished upload: first in the global collection, then in the
/// owner's copy when the object has an owner.
pub fn record_upload(images: &mut ImagesJson, users: &mut UsersJson, meta: ImageMeta)
    ensures
        final(images).images@ == old(images).images@.push(meta),
        final(users).users@.len() == old(users).users@.len(),
        match meta.owner {
            None => final(users).users@ == old(users).users@,
            Some(o) => match user_pos(old(users).users@, o@) {
                None => final(users).users@ == old(users).users@,
                Some(i) => {
                    &&& forall|j: int|
                        0 <= j < old(users).users@.len() && j != i ==> final(users).users@[j]
                            == old(users).users@[j]
                    &&& same_account(final(users).users@[i], old(users).users@[i])
                    &&& final(users).users@[i].images@ == old(users).users@[i].images@.push(meta)
                },
            },
        },
{
    let copy = meta.copy();
    match &meta.owner {
        Some(o) => {
            let owner = copy_string(o);
            insert_object(images, meta);
            attach_to_owner(users, owner.as_str(), copy);
        },
        None => {
            insert_object(images, meta);
        },
    }
}

/// Position of the first object in `v` with id `id`.
pub fn position_of_id(v: &Vec<ImageMeta>, id: &str) -> (r: Option<usize>)
    ensures
        r matches Some(p) ==> p < v@.len() && v@[p as int].id@ == id@ && forall|j: int|
            0 <= j < p ==> v@[j].id@ != id@,
        r is None ==> forall|j: int| 0 <= j < v@.len() ==> v@[j].id@ != id@,
{
    let k = string_of_chars(str_chars(id).as_slice());
    let mut i: usize = 0;
    while i < v.len()
        invariant
            i <= v.len(),
            k@ == id@,
            forall|j: int| 0 <= j < i ==> v@[j].id@ != id@,
        decreases v.len() - i,
    {
        if v[i].id == k {
            return Some(i);
        }
        i = i + 1;
    }
    None
}

/// Takes the object with id `id` out of the list of account `username`.
#[verifier::rlimit(40)]
pub fn remove_owned_by_id(users: &mut UsersJson, username: &str, id: &str) -> (r: Result<
    ImageMeta,
    ServiceError,
>)
    ensures
        r is Err ==> final(users).users@ == old(users).users@,
        user_pos(old(users).users@, username@) is None ==> r == Err::<ImageMeta, ServiceError>(
            ServiceError::NotFound,
        ),
        user_pos(old(users).users@, username@) matches Some(i) ==> {
            let before = old(users).users@[i].images@;
            &&& (forall|j: int| 0 <= j < before.len() ==> before[j].id@ != id@) ==> r
                == Err::<ImageMeta, ServiceError>(ServiceError::NotFound)
            &&& r matches Ok(m) ==> exists|p: int|
                0 <= p < before.len() && before[p] == m && m.id@ == id@ && (forall|j: int|
                    0 <= j < p ==> before[j].id@ != id@) && final(users).users@.len() == old(
                    users,
                ).users@.len() && (forall|j: int|
                    0 <= j < old(users).users@.len() && j != i ==> final(users).users@[j] == old(
                        users,
                    ).users@[j]) && same_account(final(users).users@[i], old(users).users@[i])
                    && final(users).users@[i].images@ == before.remove(p)
            &&& (exists|j: int| 0 <= j < before.len() && before[j].id@ == id@) ==> r is Ok
        },
{
    let i = match find_user_index(users, username) {
        None => return Err(ServiceError::NotFound),
        Some(i) => i,
    };
    let p = match position_of_id(&users.users[i].images, id) {
        None => return Err(ServiceError::NotFound),
        Some(p) => p,
    };
    let mut u = users.users.remove(i);
    let item = u.images.remove(p);
    users.users.insert(i, u);
    Ok(item)
}

/// Removes every object with `id` from the global collection.
pub fn remove_global_by_id(images: &mut ImagesJson, id: &str)
    ensures
        final(images).images@ == without_key(old(images).images@, id@, true),
{
    retain_without(&mut images.images, id, true);
}

/// Removes every object named `filename` from the global collection.
pub fn remove_global_by_filename(images: &mut ImagesJson, filename: &str)
    ensures
        final(images).images@ == without_key(old(images).images@, filename@, false),
{
    retain_without(&mut images.images, filename, false);
}

/// Removes every object named `filename` from every account's list.
pub fn remove_owned_by_filename(users: &mut UsersJson, filename: &str)
    ensures
        final(users).users@.len() == old(users).users@.len(),
        forall|j: int|
            0 <= j < old(users).users@.len() ==> same_account(
                #[trigger] final(users).users@[j],
                old(users).users@[j],
            ) && final(users).users@[j].images@ == without_key(
                old(users).users@[j].images@,
                filename@,
                false,
            ),
{
    let mut i: usize = 0;
    while i < users.users.len()
        invariant
            i <= users.users.len() == old(users).users@.len(),
            forall|j: int|
                0 <= j < i ==> same_account(#[trigger] users.users@[j], old(users).users@[j])
                    && users.users@[j].images@ == without_key(
                    old(users).users@[j].images@,
                    filename@,
                    false,
                ),
            forall|j: int| i <= j < users.users@.len() ==> users.users@[j] == old(users).users@[j],
        decreases users.users.len() - i,
    {
        let mut u = users.users.remove(i);
        retain_without(&mut u.images, filename, false);
        users.users.insert(i, u);
        i = i + 1;
    }
}

/// The accounts of `s` not named `name`, in order.
pub open spec fn without_user(s: Seq<User>, name: Seq<char>) -> Seq<User>
    decreases s.len(),
{
    if s.len() == 0 {
        s
    } else if s.last().username@ == name {
        without_user(s.drop_last(), name)
    } else {
        without_user(s.drop_last(), name).push(s.last())
    }
}

/// Deletes an account on the administrator's behalf; the administrator's own
/// account cannot be deleted.
#[verifier::rlimit(80)]
pub fn admin_users_delete(users: &mut UsersJson, actor: &str, username: &str) -> (r: Result<
    (),
    ServiceError,
>)
    ensures
        actor@ != role_admin() ==> r == Err::<(), ServiceError>(ServiceError::AuthorizationDenied),
        actor@ == role_admin() && username@ == role_admin() ==> r == Err::<(), ServiceError>(
            ServiceError::ValidationFailed(Field::Username),
        ),
        actor@ == role_admin() && username@ != role_admin() ==> r == (if username_taken(
            old(users).users@,
            username@,
        ) {
            Ok::<(), ServiceError>(())
        } else {
            Err(ServiceError::NotFound)
        }),
        r is Ok ==> final(users).users@ == without_user(old(users).users@, username@),
        r is Err ==> final(users).users@ == old(users).users@,
{
    if !is_admin_name(actor) {
        return Err(ServiceError::AuthorizationDenied);
    }
    if is_admin_name(username) {
        return Err(ServiceError::ValidationFailed(Field::Username));
    }
    if find_user_index(users, username).is_none() {
        return Err(ServiceError::NotFound);
    }
    let k = string_of_chars(str_chars(username).as_slice());
    let ghost orig = users.users@;
    let ghost n = orig.len() as int;
    let ghost mut seen: int = 0;
    let mut i: usize = 0;
    assert(orig.subrange(0, 0) =~= Seq::<User>::empty());
    while i < users.users.len()
        invariant
            k@ == username@,
            0 <= seen <= n,
            n == orig.len(),
            i == without_user(orig.subrange(0, seen), username@).len(),
            users.users@ == without_user(orig.subrange(0, seen), username@) + orig.subrange(
                seen,
                n,
            ),
        decreases n - seen,
    {
        let ghost before = without_user(orig.subrange(0, seen), username@);
        assert(users.users@[i as int] == orig[seen]);
        assert(orig.subrange(0, seen + 1).drop_last() =~= orig.subrange(0, seen));
        assert(orig.subrange(0, seen + 1).last() == orig[seen]);
        if users.users[i].username == k {
            users.users.remove(i);
            assert(users.users@ =~= before + orig.subrange(seen + 1, n));
        } else {
            i = i + 1;
            assert(users.users@ =~= before.push(orig[seen]) + orig.subrange(seen + 1, n));
        }
        proof {
            seen = seen + 1;
        }
    }
    assert(orig.subrange(seen, n) =~= Seq::<User>::empty());
    assert(orig.subrange(0, n) =~= orig);
    assert(users.users@ =~= without_user(orig, username@));
    Ok(())
}

/// Deletes an account on the administrator's behalf, with the cascade:
/// first the account, then every object it owned in the global collection.
/// Returns the on-disk names of those objects, whose files go too.
pub fn delete_account(
    users: &mut UsersJson,
    images: &mut ImagesJson,
    actor: &str,
    username: &str,
) -> (r: Result<Vec<String>, ServiceError>)
    ensures
        actor@ != role_admin() ==> r == Err::<Vec<String>, ServiceError>(
            ServiceError::AuthorizationDenied,
        ),
        actor@ == role_admin() && username@ == role_admin() ==> r == Err::<Vec<String>, ServiceError>(
            ServiceError::ValidationFailed(Field::Username),
        ),
        actor@ == role_admin() && username@ != role_admin() && !username_taken(
            old(users).users@,
            username@,
        ) ==> r == Err::<Vec<String>, ServiceError>(ServiceError::NotFound),
        actor@ == role_admin() && username@ != role_admin() && username_taken(
            old(users).users@,
            username@,
        ) ==> r is Ok,
        r is Err ==> final(users).users@ == old(users).users@ && final(images).images@ == old(
            images,
        ).images@,
        r matches Ok(names) ==> {
            &&& final(users).users@ == without_user(old(users).users@, username@)
            &&& final(images).images@ == without_owner(old(images).images@, username@)
            &&& string_views(names@) == owned_filenames(old(images).images@, username@)
        },
{
    match admin_users_delete(users, actor, username) {
        Err(e) => Err(e),
        Ok(()) => Ok(remove_global_by_owner(images, username)),
    }
}

/// Whether an account other than `username` uses `email`, ignoring ASCII case.
pub open spec fn email_used_by_other(s: Seq<User>, username: Seq<char>, email: Seq<char>) -> bool {
    exists|i: int|
        0 <= i < s.len() && s[i].username@ != username && eq_ignore_ascii_case_spec(
            s[i].email@,
            email,
        )
}

/// Whether an account other than `username` uses `email`, ignoring ASCII case.
pub fn email_used_elsewhere(users: &UsersJson, username: &str, email: &str) -> (r: bool)
    ensures
        r == email_used_by_other(users.users@, username@, email@),
{
    let name = string_of_chars(str_chars(username).as_slice());
    let mut k: usize = 0;
    while k < users.users.len()
        invariant
            k <= users.users.len(),
            name@ == username@,
            forall|j: int|
                0 <= j < k ==> !(users.users@[j].username@ != username@
                    && eq_ignore_ascii_case_spec(users.users@[j].email@, email@)),
        decreases users.users.len() - k,
    {
        if users.users[k].username != name && eq_ignore_ascii_case(
            users.users[k].email.as_str(),
            email,
        ) {
            return true;
        }
        k = k + 1;
    }
    false
}

/// Two accounts that agree on everything but the e-mail.
pub open spec fn same_but_email(a: User, b: User) -> bool {
    &&& a.username == b.username
    &&& a.password_hash == b.password_hash
    &&& a.created_at == b.created_at
    &&& a.role == b.role
    &&& a.preferences == b.preferences
    &&& a.images == b.images
}

/// Sets the e-mail of account `username`, when it exists.
fn set_email(users: &mut UsersJson, username: &str, email: String)
    ensures
        final(users).users@.len() == old(users).users@.len(),
        match user_pos(old(users).users@, username@) {
            None => final(users).users@ == old(users).users@,
            Some(i) => (forall|j: int|
                0 <= j < old(users).users@.len() && j != i ==> final(users).users@[j] == old(
                    users,
                ).users@[j]) && final(users).users@[i].email@ == email@ && same_but_email(
                final(users).users@[i],
                old(users).users@[i],
            ),
        },
{
    match find_user_index(users, username) {
        None => {},
        Some(i) => {
            let mut u = users.users.remove(i);
            u.email = email;
            users.users.insert(i, u);
        },
    }
}

/// Changes the e-mail of `username` to the trimmed `email`, which must have
/// the e-mail shape and be unused by any other account.
pub fn update_email(users: &mut UsersJson, username: &str, email: &str) -> (r: Result<
    String,
    ServiceError,
>)
    ensures
        trim_of(email@).len() == 0 ==> r == Err::<String, ServiceError>(
            ServiceError::ValidationFailed(Field::Email),
        ),
        trim_of(email@).len() > 0 && !valid_email_shape(trim_of(email@)) ==> r == Err::<
            String,
            ServiceError,
        >(ServiceError::ValidationFailed(Field::Email)),
        valid_email_shape(trim_of(email@)) ==> (if email_used_by_other(
            old(users).users@,
            username@,
            trim_of(email@),
        ) {
            r == Err::<String, ServiceError>(ServiceError::Conflict(ConflictKey::Email))
        } else {
            r matches Ok(e) && e@ == trim_of(email@)
        }),
        r is Err ==> final(users).users@ == old(users).users@,
        r is Ok ==> final(users).users@.len() == old(users).users@.len() && match user_pos(
            old(users).users@,
            username@,
        ) {
            None => final(users).users@ == old(users).users@,
            Some(i) => (forall|j: int|
                0 <= j < old(users).users@.len() && j != i ==> final(users).users@[j] == old(
                    users,
                ).users@[j]) && final(users).users@[i].email@ == trim_of(email@) && same_but_email(
                final(users).users@[i],
                old(users).users@[i],
            ),
        },
{
    let e = trim(email);
    if e.is_empty() {
        return Err(ServiceError::ValidationFailed(Field::Email));
    }
    if !(has_char(e, '@') && has_char(e, '.')) {
        return Err(ServiceError::ValidationFailed(Field::Email));
    }
    if email_used_elsewhere(users, username, e) {
        return Err(ServiceError::Conflict(ConflictKey::Email));
    }
    let new_email = string_of_chars(str_chars(e).as_slice());
    set_email(users, username, copy_string(&new_email));
    Ok(new_email)
}

/// The loosely typed value a client may send for the registration lock.
pub enum BlockedValue {
    Bool(bool),
    Text(String),
    Other,
}

pub open spec fn decode_blocked_spec(v: BlockedValue) -> bool {
    match v {
        BlockedValue::Bool(b) => b,
        BlockedValue::Text(s) => s@ == seq!['t', 'r', 'u', 'e'],
        BlockedValue::Other => false,
    }
}

/// `true` for a boolean true or the text `true`; `false` for anything else.
pub fn decode_blocked(v: &BlockedValue) -> (r: bool)
    ensures
        r == decode_blocked_spec(*v),
{
    match v {
        BlockedValue::Bool(b) => *b,
        BlockedValue::Text(s) => {
            let t = string_of_chars(vec!['t', 'r', 'u', 'e'].as_slice());
            *s == t
        },
        BlockedValue::Other => false,
    }
}

/// Sets the registration lock on the administrator's behalf.
pub fn admin_register_set(settings: &mut SettingsJson, actor: &str, v: &BlockedValue) -> (r: Result<
    bool,
    ServiceError,
>)
    ensures
        actor@ != role_admin() ==> r == Err::<bool, ServiceError>(ServiceError::AuthorizationDenied)
            && final(settings).register_blocked == old(settings).register_blocked,
        actor@ == role_admin() ==> r == Ok::<bool, ServiceError>(decode_blocked_spec(*v))
            && final(settings).register_blocked == decode_blocked_spec(*v),
{
    if !is_admin_name(actor) {
        return Err(ServiceError::AuthorizationDenied);
    }
    let val = decode_blocked(v);
    settings.register_blocked = val;
    Ok(val)
}

/// An upload, then the deletion of its id, seen on the global collection and
/// on the owner's list: before the deletion the object is in each exactly
/// once, and after it in neither.
pub proof fn lemma_upload_then_delete(
    global: Seq<ImageMeta>,
    owned: Seq<ImageMeta>,
    meta: ImageMeta,
)
    requires
        count_id(global, meta.id@) == 0,
        count_id(owned, meta.id@) == 0,
    ensures
        count_id(global.push(meta), meta.id@) == 1,
        count_id(owned.push(meta), meta.id@) == 1,
        count_id(without_key(global.push(meta), meta.id@, true), meta.id@) == 0,
        forall|p: int|
            0 <= p < owned.push(meta).len() && owned.push(meta)[p].id@ == meta.id@ ==> count_id(
                #[trigger] owned.push(meta).remove(p),
                meta.id@,
            ) == 0,
{
    assert(global.push(meta).drop_last() =~= global);
    assert(owned.push(meta).drop_last() =~= owned);
    lemma_without_key_count(global.push(meta), meta.id@);
    assert forall|p: int|
        0 <= p < owned.push(meta).len() && owned.push(meta)[p].id@ == meta.id@ implies count_id(
        #[trigger] owned.push(meta).remove(p),
        meta.id@,
    ) == 0 by {
        lemma_count_zero_no_id(owned, meta.id@);
        if p < owned.len() {
            assert(owned[p] == owned.push(meta)[p]);
        } else {
            assert(owned.push(meta).remove(p) =~= owned);
        }
    }
}

proof fn lemma_count_zero_no_id(s: Seq<ImageMeta>, id: Seq<char>)
    requires
        count_id(s, id) == 0,
    ensures
        forall|j: int| 0 <= j < s.len() ==> s[j].id@ != id,
    decreases s.len(),
{
    if s.len() > 0 {
        lemma_count_zero_no_id(s.drop_last(), id);
        assert forall|j: int| 0 <= j < s.len() implies s[j].id@ != id by {
            if j < s.len() - 1 {
                assert(s[j] == s.drop_last()[j]);
            }
        }
    }
}

proof fn lemma_without_key_count(s: Seq<ImageMeta>, id: Seq<char>)
    ensures
        count_id(without_key(s, id, true), id) == 0,
    decreases s.len(),
{
    if s.len() > 0 {
        lemma_without_key_count(s.drop_last(), id);
        let w = without_key(s.drop_last(), id, true);
        if s.last().id@ != id {
            assert(w.push(s.last()).drop_last() =~= w);
        }
    }
}

} // verus!
