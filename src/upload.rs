use vstd::prelude::*;
use vstd::string::StringSliceAdditionalSpecFns;
use vstd::utf8::encode_utf8;

use crate::accounts::{bcrypt_matches, hash_password, verify_password};
use crate::error::{Field, ServiceError};
use crate::objects::{record_upload, same_account};
use crate::session::{is_lower_hex, now_ms};
use crate::store::{
    copy_string, email_pos, find_user_by_email, lower_of, trim_of, user_pos, ImageMeta,
    ImagesJson, User, UsersJson,
};
use crate::text::{decimal, decimal_string, digit_char, starts_with_chars, str_chars, string_of_chars, sub_chars};
use crate::web::{join_url, join_url_spec, split_on};

verus! {

pub open spec fn is_safe_name_char(c: char) -> bool {
    ('a' <= c && c <= 'z') || ('A' <= c && c <= 'Z') || ('0' <= c && c <= '9') || c == '.' || c
        == '-' || c == '_'
}

pub open spec fn safe_char(c: char) -> char {
    if is_safe_name_char(c) {
        c
    } else {
        '_'
    }
}

/// Every character outside `[A-Za-z0-9._-]` replaced by `_`; `file` for an
/// empty name.
pub open spec fn sanitize_spec(s: Seq<char>) -> Seq<char> {
    if s.len() == 0 {
        seq!['f', 'i', 'l', 'e']
    } else {
        s.map_values(|c: char| safe_char(c))
    }
}

/// A file name that is safe to use on disk.
pub fn sanitize_filename(s: &str) -> (r: String)
    ensures
        r@ == sanitize_spec(s@),
{
    let cs = str_chars(s);
    if cs.len() == 0 {
        return string_of_chars(vec!['f', 'i', 'l', 'e'].as_slice());
    }
    let mut out: Vec<char> = Vec::new();
    let mut i: usize = 0;
    while i < cs.len()
        invariant
            i <= cs.len(),
            cs@ == s@,
            out@ == cs@.subrange(0, i as int).map_values(|c: char| safe_char(c)),
        decreases cs.len() - i,
    {
        let c = cs[i];
        let ok = ('a' <= c && c <= 'z') || ('A' <= c && c <= 'Z') || ('0' <= c && c <= '9') || c
            == '.' || c == '-' || c == '_';
        out.push(if ok { c } else { '_' });
        i = i + 1;
        assert(out@ =~= cs@.subrange(0, i as int).map_values(|c: char| safe_char(c)));
    }
    assert(cs@.subrange(0, cs@.len() as int) =~= cs@);
    string_of_chars(out.as_slice())
}

/// `<ts>-<uid>-<safe>`: the on-disk name of an upload.
pub open spec fn stored_name_spec(ts: u64, uid: Seq<char>, safe: Seq<char>) -> Seq<char> {
    decimal(ts as nat) + seq!['-'] + uid + seq!['-'] + safe
}

/// The on-disk name for an upload made at `ts` with identifier `uid`.
pub fn stored_name(ts: u64, uid: &str, original: &str) -> (r: String)
    ensures
        r@ == stored_name_spec(ts, uid@, sanitize_spec(original@)),
{
    let dash = string_of_chars(vec!['-'].as_slice());
    let mut out = decimal_string(ts);
    out.append(dash.as_str());
    out.append(uid);
    out.append(dash.as_str());
    out.append(sanitize_filename(original).as_str());
    out
}

/// Relies on `uuid::Uuid::new_v4` rendered with `to_string`: a random
/// identifier in the hyphenated lower-case form, 36 characters of hex digits
/// and `-`.
#[verifier::external_body]
fn new_uuid() -> (r: String)
    ensures
        r@.len() == 36,
        forall|i: int| 0 <= i < 36 ==> is_lower_hex(#[trigger] r@[i]) || r@[i] == '-',
{
    uuid::Uuid::new_v4().to_string()
}

/// A fresh on-disk name for an upload of `original`, from the current time and
/// a random identifier.
pub fn fresh_stored_name(original: &str) -> (r: String)
    ensures
        exists|ts: u64, uid: Seq<char>|
            r@ == stored_name_spec(ts, uid, sanitize_spec(original@)) && uid.len() == 36 && (forall|
                i: int,
            | 0 <= i < 36 ==> is_lower_hex(#[trigger] uid[i]) || uid[i] == '-'),
{
    let uid = new_uuid();
    stored_name(now_ms(), uid.as_str(), original)
}

/// `<ts>.png`: the name given to a raw upload that named no file.
pub fn default_upload_name(ts: u64) -> (r: String)
    ensures
        r@ == decimal(ts as nat) + seq!['.', 'p', 'n', 'g'],
{
    let mut out = decimal_string(ts);
    out.append(string_of_chars(vec!['.', 'p', 'n', 'g'].as_slice()).as_str());
    out
}

/// What happens while a body streams in.
pub enum UploadEvent {
    /// A chunk of this many bytes arrived.
    Chunk(u64),
    /// The upstream stream failed.
    StreamError,
    /// Writing a chunk to disk failed.
    WriteError,
    /// The body ended.
    End,
}

/// What to do next.
#[derive(Clone, Copy, Debug, PartialEq, Eq, Structural)]
pub enum UploadAction {
    /// Write the chunk and read on; the running count so far.
    Write(u64),
    /// Delete the partial file and fail with this error.
    Abort(ServiceError),
    /// The body is complete, with this many bytes.
    Finish(u64),
}

pub open spec fn upload_step_spec(received: u64, cap: u64, ev: UploadEvent) -> UploadAction {
    match ev {
        UploadEvent::Chunk(n) => if received + n > cap {
            UploadAction::Abort(ServiceError::PayloadTooLarge)
        } else {
            UploadAction::Write((received + n) as u64)
        },
        UploadEvent::StreamError => UploadAction::Abort(ServiceError::TransportFailure),
        UploadEvent::WriteError => UploadAction::Abort(ServiceError::TransportFailure),
        UploadEvent::End => UploadAction::Finish(received),
    }
}

/// The decision on one event of an upload that has received `received`
/// bytes against a cap of `cap`. The cap is checked on the running count,
/// before the chunk is written.
pub fn upload_step(received: u64, cap: u64, ev: UploadEvent) -> (r: UploadAction)
    requires
        received <= cap,
    ensures
        r == upload_step_spec(received, cap, ev),
{
    match ev {
        UploadEvent::Chunk(n) => {
            if n > cap - received {
                UploadAction::Abort(ServiceError::PayloadTooLarge)
            } else {
                UploadAction::Write(received + n)
            }
        },
        UploadEvent::StreamError => UploadAction::Abort(ServiceError::TransportFailure),
        UploadEvent::WriteError => UploadAction::Abort(ServiceError::TransportFailure),
        UploadEvent::End => UploadAction::Finish(received),
    }
}

/// A whole body of chunks, each written without error.
pub open spec fn run_chunks(received: u64, cap: u64, chunks: Seq<u64>) -> UploadAction
    decreases chunks.len(),
{
    if chunks.len() == 0 {
        UploadAction::Finish(received)
    } else {
        match upload_step_spec(received, cap, UploadEvent::Chunk(chunks[0])) {
            UploadAction::Write(next) => run_chunks(next, cap, chunks.drop_first()),
            other => other,
        }
    }
}

pub open spec fn total_len(chunks: Seq<u64>) -> nat
    decreases chunks.len(),
{
    if chunks.len() == 0 {
        0
    } else {
        chunks[0] as nat + total_len(chunks.drop_first())
    }
}

/// A body is accepted exactly when its total stays within the cap: a longer
/// one is aborted with `PayloadTooLarge`, which deletes the partial file.
pub proof fn lemma_size_cap(received: u64, cap: u64, chunks: Seq<u64>)
    requires
        received <= cap,
    ensures
        received + total_len(chunks) > cap ==> run_chunks(received, cap, chunks) == UploadAction::Abort(
            ServiceError::PayloadTooLarge,
        ),
        received + total_len(chunks) <= cap ==> run_chunks(received, cap, chunks) == UploadAction::Finish(
            (received + total_len(chunks)) as u64,
        ),
    decreases chunks.len(),
{
    if chunks.len() > 0 {
        if received + chunks[0] <= cap {
            lemma_size_cap((received + chunks[0]) as u64, cap, chunks.drop_first());
        }
    }
}

/// Whether `candidate` is the upload token: the plain token still cached from
/// its issue, or one that matches the stored bcrypt hash. Empty never is.
pub fn verify_upload_token(plain: Option<&str>, hash: &str, candidate: &str) -> (r: bool)
    ensures
        r == (candidate@.len() > 0 && ((plain matches Some(p) && p@ == candidate@)
            || bcrypt_matches(candidate@, hash@))),
{
    if candidate.is_empty() {
        return false;
    }
    match plain {
        Some(p) => {
            let a = string_of_chars(str_chars(p).as_slice());
            let b = string_of_chars(str_chars(candidate).as_slice());
            if a == b {
                return true;
            }
        },
        None => {},
    }
    verify_password(candidate, hash)
}

pub open spec fn bearer_prefix() -> Seq<char> {
    seq!['B', 'e', 'a', 'r', 'e', 'r', ' ']
}

/// The token of an `Authorization: Bearer <token>` header.
pub fn bearer_token(auth: &str) -> (r: Option<String>)
    ensures
        (bearer_prefix().len() <= auth@.len() && auth@.subrange(0, 7) == bearer_prefix()) ==> (r
            matches Some(t) && t@ == auth@.subrange(7, auth@.len() as int)),
        !(bearer_prefix().len() <= auth@.len() && auth@.subrange(0, 7) == bearer_prefix()) ==> r is None,
{
    let cs = str_chars(auth);
    let prefix: Vec<char> = vec!['B', 'e', 'a', 'r', 'e', 'r', ' '];
    if !starts_with_chars(&cs, &prefix) {
        return None;
    }
    Some(string_of_chars(sub_chars(&cs, 7, cs.len()).as_slice()))
}

/// A byte that percent-encoding keeps: ASCII letters, digits and `-._~`.
pub open spec fn is_unreserved_byte(b: u8) -> bool {
    (48 <= b <= 57) || (65 <= b <= 90) || (97 <= b <= 122) || b == 45 || b == 46 || b == 95 || b
        == 126
}

/// An upper-case hexadecimal digit.
pub open spec fn upper_hex_digit(d: u8) -> char {
    if d < 10 { digit_char(d as nat) } else if d == 10 { 'A' } else if d == 11 { 'B' }
    else if d == 12 { 'C' } else if d == 13 { 'D' } else if d == 14 { 'E' } else { 'F' }
}

/// Percent-encoding of bytes: unreserved bytes as themselves, every other
/// byte as `%` and two upper-case hex digits.
pub open spec fn percent_encode_bytes(b: Seq<u8>) -> Seq<char>
    decreases b.len(),
{
    if b.len() == 0 {
        Seq::empty()
    } else if is_unreserved_byte(b.last()) {
        percent_encode_bytes(b.drop_last()).push(b.last() as char)
    } else {
        percent_encode_bytes(b.drop_last()).push('%').push(upper_hex_digit(b.last() / 16)).push(
            upper_hex_digit(b.last() % 16),
        )
    }
}

/// Percent-encoding of a text's UTF-8 bytes, for use in a URL path.
pub open spec fn url_encoded_of(s: Seq<char>) -> Seq<char> {
    percent_encode_bytes(encode_utf8(s))
}

/// Relies on `urlencoding::encode`: each UTF-8 byte that is an ASCII letter,
/// digit or one of `-._~` is kept, every other byte is written `%XX` with
/// upper-case hex digits.
#[verifier::external_body]
fn url_encode(s: &str) -> (r: String)
    ensures
        r@ == url_encoded_of(s@),
{
    urlencoding::encode(s).into_owned()
}

/// The public URL of a stored object.
pub open spec fn object_url_spec(origin: Seq<char>, stored: Seq<char>) -> Seq<char> {
    join_url_spec(origin, seq!['/', 'i', '/'] + url_encoded_of(stored))
}

/// The URL that deletes an object.
pub open spec fn delete_url_spec(origin: Seq<char>, id: Seq<char>) -> Seq<char> {
    join_url_spec(origin, seq!['/', 'a', 'p', 'i', '/', 'i', 'm', 'a', 'g', 'e', 's', '/'] + id)
}

pub fn object_url(origin: &str, stored: &str) -> (r: String)
    ensures
        r@ == object_url_spec(origin@, stored@),
{
    let mut path = string_of_chars(vec!['/', 'i', '/'].as_slice());
    path.append(url_encode(stored).as_str());
    join_url(origin, path.as_str())
}

pub fn delete_url(origin: &str, id: &str) -> (r: String)
    ensures
        r@ == delete_url_spec(origin@, id@),
{
    let mut path = string_of_chars(
        vec!['/', 'a', 'p', 'i', '/', 'i', 'm', 'a', 'g', 'e', 's', '/'].as_slice(),
    );
    path.append(id);
    join_url(origin, path.as_str())
}

/// The owner of a raw upload: the account whose e-mail the uploader named.
pub fn owner_for_email(users: &UsersJson, email: &str) -> (r: Option<String>)
    ensures
        lower_of(trim_of(email@)).len() == 0 ==> r is None,
        lower_of(trim_of(email@)).len() > 0 ==> (match r {
            Some(u) => email_pos(users.users@, lower_of(trim_of(email@))) matches Some(i) && u
                == users.users@[i].username,
            None => email_pos(users.users@, lower_of(trim_of(email@))) is None,
        }),
{
    match find_user_by_email(users, email) {
        Some(u) => Some(copy_string(&u.username)),
        None => None,
    }
}

/// The metadata of a finished upload.
pub open spec fn is_upload_meta(
    m: ImageMeta,
    id: Seq<char>,
    stored: Seq<char>,
    original: Seq<char>,
    size: u64,
    origin: Seq<char>,
    now: u64,
    owner: Option<Seq<char>>,
) -> bool {
    &&& m.id@ == id
    &&& m.filename@ == stored
    &&& m.originalname@ == original
    &&& m.size == size
    &&& m.url@ == object_url_spec(origin, stored)
    &&& m.uploaded_at == now
    &&& match owner {
        Some(o) => m.owner matches Some(mo) && mo@ == o,
        None => m.owner is None,
    }
}

/// The metadata of a finished upload.
pub fn build_upload_meta(
    id: &str,
    stored: &str,
    original: &str,
    size: u64,
    origin: &str,
    now: u64,
    owner: Option<&str>,
) -> (r: ImageMeta)
    ensures
        is_upload_meta(
            r,
            id@,
            stored@,
            original@,
            size,
            origin@,
            now,
            match owner {
                Some(o) => Some(o@),
                None => None,
            },
        ),
{
    ImageMeta {
        id: string_of_chars(str_chars(id).as_slice()),
        filename: string_of_chars(str_chars(stored).as_slice()),
        originalname: string_of_chars(str_chars(original).as_slice()),
        size,
        url: object_url(origin, stored),
        uploaded_at: now,
        owner: match owner {
            Some(o) => Some(string_of_chars(str_chars(o).as_slice())),
            None => None,
        },
    }
}

/// The metadata of an upload finished now, under a fresh random id.
pub fn build_upload_meta_now(
    stored: &str,
    original: &str,
    size: u64,
    origin: &str,
    owner: Option<&str>,
) -> (r: ImageMeta)
    ensures
        r.filename@ == stored@,
        r.originalname@ == original@,
        r.size == size,
        r.url@ == object_url_spec(origin@, stored@),
        match owner {
            Some(o) => r.owner matches Some(mo) && mo@ == o@,
            None => r.owner is None,
        },
{
    let id = new_uuid();
    build_upload_meta(id.as_str(), stored, original, size, origin, now_ms(), owner)
}

/// Completes an upload: builds its metadata, records it in the global
/// collection and in the owner's copy, and returns the public URL and the
/// deletion URL.
pub fn finalize_upload(
    images: &mut ImagesJson,
    users: &mut UsersJson,
    id: &str,
    stored: &str,
    original: &str,
    size: u64,
    origin: &str,
    now: u64,
    owner: Option<&str>,
) -> (r: (String, String))
    ensures
        r.0@ == object_url_spec(origin@, stored@),
        r.1@ == delete_url_spec(origin@, id@),
        final(images).images@.len() == old(images).images@.len() + 1,
        final(images).images@.drop_last() == old(images).images@,
        is_upload_meta(
            final(images).images@.last(),
            id@,
            stored@,
            original@,
            size,
            origin@,
            now,
            match owner {
                Some(o) => Some(o@),
                None => None,
            },
        ),
        final(users).users@.len() == old(users).users@.len(),
        match owner {
            None => final(users).users@ == old(users).users@,
            Some(o) => match user_pos(old(users).users@, o@) {
                None => final(users).users@ == old(users).users@,
                Some(i) => {
                    &&& forall|j: int|
                        0 <= j < old(users).users@.len() && j != i ==> final(users).users@[j]
                            == old(users).users@[j]
                    &&& same_account(final(users).users@[i], old(users).users@[i])
                    &&& final(users).users@[i].images@ == old(users).users@[i].images@.push(
                        final(images).images@.last(),
                    )
                },
            },
        },
{
    let meta = build_upload_meta(id, stored, original, size, origin, now, owner);
    let url = copy_string(&meta.url);
    record_upload(images, users, meta);
    assert(images.images@.drop_last() =~= old(images).images@);
    (url, delete_url(origin, id))
}

/// What a request to replace a secret (the password, or the upload token)
/// owes before anything is hashed: the current password must be given, the
/// account must exist, the current password must match its hash, and the
/// new secret must have at least 6 bytes.
pub open spec fn secret_change_check(
    stored_hash: Option<Seq<char>>,
    current: Option<Seq<char>>,
    new_secret: Seq<char>,
    field: Field,
) -> Result<(), ServiceError> {
    match current {
        None => Err(ServiceError::ValidationFailed(Field::Password)),
        Some(c) => match stored_hash {
            None => Err(ServiceError::NotFound),
            Some(h) => if !bcrypt_matches(c, h) {
                Err(ServiceError::AuthenticationFailed)
            } else if encode_utf8(new_secret).len() < 6 {
                Err(ServiceError::ValidationFailed(field))
            } else {
                Ok(())
            },
        },
    }
}

pub open spec fn opt_view(o: Option<&str>) -> Option<Seq<char>> {
    match o {
        Some(x) => Some(x@),
        None => None,
    }
}

/// The stored hash of account `username`, if it exists.
pub open spec fn stored_hash_of(s: Seq<User>, username: Seq<char>) -> Option<Seq<char>> {
    match user_pos(s, username) {
        Some(i) => Some(s[i].password_hash@),
        None => None,
    }
}

/// Checks a request to replace a secret against the account's stored hash,
/// and hashes the new secret when every check passes. Meant to run outside
/// the accounts lock: bcrypt is slow.
pub fn hash_new_secret(
    stored_hash: Option<&str>,
    current: Option<&str>,
    new_secret: &str,
    field: Field,
) -> (r: Result<String, ServiceError>)
    ensures
        secret_change_check(opt_view(stored_hash), opt_view(current), new_secret@, field) matches Err(
            e,
        ) ==> r == Err::<String, ServiceError>(e),
        secret_change_check(opt_view(stored_hash), opt_view(current), new_secret@, field) is Ok ==> (r is Ok
            || r == Err::<String, ServiceError>(ServiceError::HashingFailed)),
        r matches Ok(h) ==> bcrypt_matches(new_secret@, h@),
{
    let cur = match current {
        None => return Err(ServiceError::ValidationFailed(Field::Password)),
        Some(c) => c,
    };
    let h = match stored_hash {
        None => return Err(ServiceError::NotFound),
        Some(h) => h,
    };
    if !verify_password(cur, h) {
        return Err(ServiceError::AuthenticationFailed);
    }
    if new_secret.as_bytes().len() < 6 {
        return Err(ServiceError::ValidationFailed(field));
    }
    match hash_password(new_secret) {
        Some(x) => Ok(x),
        None => Err(ServiceError::HashingFailed),
    }
}

/// Two accounts that agree on everything but the password hash.
pub open spec fn same_but_hash(a: User, b: User) -> bool {
    &&& a.username == b.username
    &&& a.email == b.email
    &&& a.created_at == b.created_at
    &&& a.role == b.role
    &&& a.preferences == b.preferences
    &&& a.images == b.images
}

/// Stores `hash` as the password hash of account `username`.
pub fn set_password_hash(users: &mut UsersJson, username: &str, hash: String) -> (r: Result<
    (),
    ServiceError,
>)
    ensures
        user_pos(old(users).users@, username@) is None ==> r == Err::<(), ServiceError>(
            ServiceError::NotFound,
        ) && final(users).users@ == old(users).users@,
        user_pos(old(users).users@, username@) matches Some(i) ==> {
            &&& r is Ok
            &&& final(users).users@.len() == old(users).users@.len()
            &&& forall|j: int|
                0 <= j < old(users).users@.len() && j != i ==> final(users).users@[j] == old(
                    users,
                ).users@[j]
            &&& same_but_hash(final(users).users@[i], old(users).users@[i])
            &&& final(users).users@[i].password_hash == hash
        },
{
    match crate::store::find_user_index(users, username) {
        None => Err(ServiceError::NotFound),
        Some(i) => {
            let mut u = users.users.remove(i);
            u.password_hash = hash;
            users.users.insert(i, u);
            Ok(())
        },
    }
}

/// The stored hash of account `username`.
pub fn stored_hash(users: &UsersJson, username: &str) -> (r: Option<String>)
    ensures
        opt_string_view(r) == stored_hash_of(users.users@, username@),
{
    match crate::store::find_user_index(users, username) {
        None => None,
        Some(i) => Some(copy_string(&users.users[i].password_hash)),
    }
}

pub open spec fn opt_string_view(o: Option<String>) -> Option<Seq<char>> {
    match o {
        Some(x) => Some(x@),
        None => None,
    }
}

/// Changes the password of `username` after checking the current one: the
/// errors of `secret_change_check` in its order, else the new hash is stored
/// (or hashing failed) and nothing else changes.
pub fn change_password(
    users: &mut UsersJson,
    username: &str,
    current: Option<&str>,
    new_password: &str,
) -> (r: Result<(), ServiceError>)
    ensures
        secret_change_check(
            stored_hash_of(old(users).users@, username@),
            opt_view(current),
            new_password@,
            Field::Password,
        ) matches Err(e) ==> r == Err::<(), ServiceError>(e),
        secret_change_check(
            stored_hash_of(old(users).users@, username@),
            opt_view(current),
            new_password@,
            Field::Password,
        ) is Ok ==> (r is Ok || r == Err::<(), ServiceError>(ServiceError::HashingFailed)),
        r is Err ==> final(users).users@ == old(users).users@,
        r is Ok ==> (user_pos(old(users).users@, username@) matches Some(i) && {
            &&& final(users).users@.len() == old(users).users@.len()
            &&& forall|j: int|
                0 <= j < old(users).users@.len() && j != i ==> final(users).users@[j] == old(
                    users,
                ).users@[j]
            &&& same_but_hash(final(users).users@[i], old(users).users@[i])
            &&& bcrypt_matches(new_password@, final(users).users@[i].password_hash@)
        }),
{
    let h = stored_hash(users, username);
    let hash = match &h {
        Some(x) => hash_new_secret(Some(x.as_str()), current, new_password, Field::Password),
        None => hash_new_secret(None, current, new_password, Field::Password),
    };
    match hash {
        Err(e) => Err(e),
        Ok(x) => set_password_hash(users, username, x),
    }
}

/// Checks the account password before the upload token is replaced, and
/// returns the bcrypt hash of the new token.
pub fn change_upload_token(
    users: &UsersJson,
    username: &str,
    current: Option<&str>,
    new_token: &str,
) -> (r: Result<String, ServiceError>)
    ensures
        secret_change_check(
            stored_hash_of(users.users@, username@),
            opt_view(current),
            new_token@,
            Field::UploadToken,
        ) matches Err(e) ==> r == Err::<String, ServiceError>(e),
        secret_change_check(
            stored_hash_of(users.users@, username@),
            opt_view(current),
            new_token@,
            Field::UploadToken,
        ) is Ok ==> (r is Ok || r == Err::<String, ServiceError>(ServiceError::HashingFailed)),
        r matches Ok(h) ==> bcrypt_matches(new_token@, h@),
{
    let h = stored_hash(users, username);
    match &h {
        Some(x) => hash_new_secret(Some(x.as_str()), current, new_token, Field::UploadToken),
        None => hash_new_secret(None, current, new_token, Field::UploadToken),
    }
}

/// The last path segment that is neither empty nor `.`.
pub open spec fn last_name_segment(segs: Seq<Seq<char>>) -> Option<Seq<char>>
    decreases segs.len(),
{
    if segs.len() == 0 {
        None
    } else if segs.last().len() == 0 || segs.last() == seq!['.'] {
        last_name_segment(segs.drop_last())
    } else {
        Some(segs.last())
    }
}

/// The last component of a `/`-separated path: empty when there is none or
/// when it is `..`.
pub open spec fn file_name_of(s: Seq<char>) -> Seq<char> {
    match last_name_segment(split_on(s, '/')) {
        Some(l) => if l == seq!['.', '.'] {
            Seq::empty()
        } else {
            l
        },
        None => Seq::empty(),
    }
}

/// Relies on `std::path::Path::file_name` with Unix path rules: the path's
/// components are its `/`-separated segments without empty and `.` ones; the
/// result is the last of them, or an empty text when there is none or it is
/// `..`.
#[verifier::external_body]
fn path_file_name(s: &str) -> (r: String)
    ensures
        r@ == file_name_of(s@),
{
    std::path::Path::new(s).file_name().and_then(|n| n.to_str()).unwrap_or("").to_string()
}

/// The on-disk name that a delete-by-name request refers to: only the last
/// component of what the client sent.
pub fn delete_target_name(requested: &str) -> (r: Result<String, ServiceError>)
    ensures
        requested@.len() == 0 ==> r == Err::<String, ServiceError>(
            ServiceError::ValidationFailed(Field::Filename),
        ),
        requested@.len() > 0 ==> (r matches Ok(n) && n@ == file_name_of(requested@)),
{
    if requested.is_empty() {
        return Err(ServiceError::ValidationFailed(Field::Filename));
    }
    Ok(path_file_name(requested))
}

/// A requested object name that stays inside the object directory: a single
/// non-empty path component that is neither `.` nor `..`.
pub open spec fn contained_name_spec(name: Seq<char>) -> bool {
    &&& name.len() > 0
    &&& !name.contains('/')
    &&& !name.contains('\\')
    &&& name != seq!['.']
    &&& name != seq!['.', '.']
}

/// Whether serving `name` from the object directory cannot leave it.
pub fn is_contained_name(name: &str) -> (r: bool)
    ensures
        r == contained_name_spec(name@),
{
    let cs = str_chars(name);
    if cs.len() == 0 {
        return false;
    }
    let mut i: usize = 0;
    while i < cs.len()
        invariant
            i <= cs.len(),
            cs@ == name@,
            forall|j: int| 0 <= j < i ==> cs@[j] != '/' && cs@[j] != '\\',
        decreases cs.len() - i,
    {
        if cs[i] == '/' || cs[i] == '\\' {
            return false;
        }
        i = i + 1;
    }
    if cs.len() == 1 && cs[0] == '.' {
        assert(name@ =~= seq!['.']);
        return false;
    }
    if cs.len() == 2 && cs[0] == '.' && cs[1] == '.' {
        assert(name@ =~= seq!['.', '.']);
        return false;
    }
    assert(name@ != seq!['.']) by {
        if name@ == seq!['.'] {
            assert(cs@[0] == '.');
        }
    }
    assert(name@ != seq!['.', '.']) by {
        if name@ == seq!['.', '.'] {
            assert(cs@[0] == '.' && cs@[1] == '.');
        }
    }
    true
}

} // verus!
