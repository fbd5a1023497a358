use hmac::Mac;
use vstd::prelude::*;
use vstd::string::StringSliceAdditionalSpecFns;
use vstd::utf8::encode_utf8;

use crate::web::{get_cookie, get_cookie_spec};
use crate::text::{
    decimal, decimal_string, digit_char, find_last, last_index_of, lemma_decimal_digits,
    lemma_last_index_after, lemma_parse_decimal, parse_u64, parse_u64_spec, str_chars,
    string_of_chars, sub_chars,
};

verus! {

/// How long a session token stays valid: thirty days, in milliseconds.
pub const SESSION_MAX_AGE_MS: u64 = 2592000000;

/// HMAC-SHA256 of a message under a key, both given as UTF-8 text.
pub uninterp spec fn hmac_sha256_of(key: Seq<char>, msg: Seq<char>) -> Seq<u8>;

/// Relies on `hmac::Hmac<sha2::Sha256>`: keyed with the secret's bytes (any key
/// length is accepted), fed the payload's bytes; the tag is 32 bytes long.
#[verifier::external_body]
fn hmac_sha256(key: &str, msg: &str) -> (r: Vec<u8>)
    ensures
        r@ == hmac_sha256_of(key@, msg@),
        r@.len() == 32,
{
    let mut mac = hmac::Hmac::<sha2::Sha256>::new_from_slice(key.as_bytes()).expect("HMAC key");
    mac.update(msg.as_bytes());
    mac.finalize().into_bytes().to_vec()
}

pub open spec fn hex_digit(d: u8) -> char {
    if d < 10 { digit_char(d as nat) } else if d == 10 { 'a' } else if d == 11 { 'b' }
    else if d == 12 { 'c' } else if d == 13 { 'd' } else if d == 14 { 'e' } else { 'f' }
}

/// Lower-case hexadecimal, two digits per byte, high nibble first.
pub open spec fn hex_spec(b: Seq<u8>) -> Seq<char>
    decreases b.len(),
{
    if b.len() == 0 {
        Seq::empty()
    } else {
        hex_spec(b.drop_last()).push(hex_digit(b.last() / 16)).push(hex_digit(b.last() % 16))
    }
}

/// Relies on `hex::encode`: two lower-case hex digits for each byte, in order.
#[verifier::external_body]
fn to_hex(b: &[u8]) -> (r: String)
    ensures
        r@ == hex_spec(b@),
{
    hex::encode(b)
}

/// Relies on `SystemTime::now`: milliseconds since the Unix epoch, or 0 for a
/// clock set before it.
#[verifier::external_body]
pub fn now_ms() -> (r: u64) {
    match std::time::SystemTime::now().duration_since(std::time::UNIX_EPOCH) {
        Ok(d) => d.as_millis() as u64,
        Err(_) => 0,
    }
}

/// The MAC of a payload, as text.
pub open spec fn mac_spec(secret: Seq<char>, payload: Seq<char>) -> Seq<char> {
    hex_spec(hmac_sha256_of(secret, payload))
}

/// `<username>.<issued_at>`.
pub open spec fn payload_spec(username: Seq<char>, ts: u64) -> Seq<char> {
    username.push('.') + decimal(ts as nat)
}

/// `<username>.<issued_at>.<mac>`.
pub open spec fn token_spec(secret: Seq<char>, username: Seq<char>, ts: u64) -> Seq<char> {
    let p = payload_spec(username, ts);
    p.push('.') + mac_spec(secret, p)
}

/// What verification of `token` at time `now` gives: split from the right into
/// MAC, timestamp and username; the MAC must match the one recomputed over
/// everything before the last dot, the timestamp must parse, and the token
/// must be no older than the maximum age.
pub open spec fn verify_spec(secret: Seq<char>, token: Seq<char>, now: u64) -> Option<Seq<char>> {
    match last_index_of(token, '.') {
        None => None,
        Some(p2) => match last_index_of(token.subrange(0, p2), '.') {
            None => None,
            Some(p1) => {
                let payload = token.subrange(0, p2);
                let mac = token.subrange(p2 + 1, token.len() as int);
                let ts = token.subrange(p1 + 1, p2);
                if encode_utf8(mac_spec(secret, payload)) != encode_utf8(mac) {
                    None
                } else {
                    match parse_u64_spec(ts) {
                        None => None,
                        Some(t) => if now >= t && now - t > SESSION_MAX_AGE_MS {
                            None
                        } else {
                            Some(token.subrange(0, p1))
                        },
                    }
                }
            },
        },
    }
}

/// Compares two strings byte by byte without stopping at the first difference:
/// every byte pair of the common length is visited and the differences are
/// OR-ed together with the difference of the lengths.
pub fn timing_equal(a: &str, b: &str) -> (r: bool)
    ensures
        r == (a.spec_bytes() == b.spec_bytes()),
{
    let ab = a.as_bytes();
    let bb = b.as_bytes();
    let len: usize = if ab.len() < bb.len() { ab.len() } else { bb.len() };
    let mut diff: usize = ab.len() ^ bb.len();
    proof {
        let x = ab@.len() as usize;
        let y = bb@.len() as usize;
        assert((x ^ y) == 0usize <==> x == y) by (bit_vector);
    }
    let mut i: usize = 0;
    while i < len
        invariant
            len <= ab@.len(),
            len <= bb@.len(),
            len == ab@.len() || len == bb@.len(),
            i <= len,
            (diff == 0) <==> (ab@.len() == bb@.len() && forall|j: int|
                0 <= j < i ==> ab@[j] == bb@[j]),
        decreases len - i,
    {
        let x = ab[i];
        let y = bb[i];
        let d: usize = (x ^ y) as usize;
        proof {
            assert(((x ^ y) as usize == 0usize) <==> x == y) by (bit_vector);
            let old_diff = diff;
            assert((old_diff | d) == 0usize <==> (old_diff == 0usize && d == 0usize)) by (bit_vector);
        }
        diff = diff | d;
        i = i + 1;
    }
    proof {
        if diff == 0 {
            assert(ab@ =~= bb@);
        }
    }
    diff == 0
}

/// A session token for `username` issued at `ts` milliseconds.
pub fn sign_session(secret: &str, username: &str, ts: u64) -> (r: String)
    ensures
        r@ == token_spec(secret@, username@, ts),
        mac_spec(secret@, payload_spec(username@, ts)).len() == 64,
        forall|i: int|
            0 <= i < 64 ==> is_lower_hex(#[trigger] mac_spec(secret@, payload_spec(username@, ts))[i]),
{
    let mut payload = string_of_chars(str_chars(username).as_slice());
    payload.append(".");
    proof {
        reveal_strlit(".");
    }
    let ts_text = decimal_string(ts);
    payload.append(ts_text.as_str());
    assert(payload@ =~= payload_spec(username@, ts));
    let tag = hmac_sha256(secret, payload.as_str());
    proof {
        lemma_hex_shape(tag@);
    }
    let mac = to_hex(tag.as_slice());
    let mut out = payload.clone();
    out.append(".");
    out.append(mac.as_str());
    assert(out@ =~= token_spec(secret@, username@, ts));
    out
}

/// A session token for `username` issued now.
pub fn issue_session(secret: &str, username: &str) -> (r: String)
    ensures
        exists|ts: u64| r@ == token_spec(secret@, username@, ts),
{
    sign_session(secret, username, now_ms())
}

/// The username that `token` was issued for, if it verifies at time `now`.
pub fn verify_session_at(secret: &str, token: &str, now: u64) -> (r: Option<String>)
    ensures
        r matches Some(u) ==> verify_spec(secret@, token@, now) == Some(u@),
        r is None ==> verify_spec(secret@, token@, now) is None,
{
    let cs = str_chars(token);
    let p2 = match find_last(&cs, '.') {
        None => return None,
        Some(p) => p,
    };
    let n = cs.len();
    assert(p2 < n);
    let head = sub_chars(&cs, 0, p2);
    let p1 = match find_last(&head, '.') {
        None => return None,
        Some(p) => p,
    };
    let payload = string_of_chars(head.as_slice());
    let mac = string_of_chars(sub_chars(&cs, p2 + 1, n).as_slice());
    let ts = string_of_chars(sub_chars(&cs, p1 + 1, p2).as_slice());
    let expected = to_hex(hmac_sha256(secret, payload.as_str()).as_slice());
    if !timing_equal(expected.as_str(), mac.as_str()) {
        return None;
    }
    let t = match parse_u64(ts.as_str()) {
        None => return None,
        Some(t) => t,
    };
    assert(head@.subrange(p1 + 1, p2 as int) =~= cs@.subrange(p1 + 1, p2 as int));
    let age = now.saturating_sub(t);
    if age > SESSION_MAX_AGE_MS {
        return None;
    }
    let user = string_of_chars(sub_chars(&cs, 0, p1).as_slice());
    assert(head@.subrange(0, p1 as int) =~= cs@.subrange(0, p1 as int));
    Some(user)
}

/// The username that `token` was issued for, if it verifies now.
pub fn verify_session(secret: &str, token: &str) -> (r: Option<String>)
    ensures
        r matches Some(u) ==> exists|now: u64| verify_spec(secret@, token@, now) == Some(u@),
        r is None ==> exists|now: u64| verify_spec(secret@, token@, now) is None,
{
    verify_session_at(secret, token, now_ms())
}

/// The user of the `session` cookie in a `Cookie` header, if its token
/// verifies at time `now`.
pub fn check_auth_at(secret: &str, cookie_header: Option<&str>, now: u64) -> (r: Option<String>)
    ensures
        cookie_header is None ==> r is None,
        cookie_header matches Some(h) ==> match get_cookie_spec(h@, session_cookie_name()) {
            None => r is None,
            Some(tok) => match verify_spec(secret@, tok, now) {
                None => r is None,
                Some(u) => r matches Some(x) && x@ == u,
            },
        },
{
    let h = match cookie_header {
        None => return None,
        Some(h) => h,
    };
    let name = string_of_chars(vec!['s', 'e', 's', 's', 'i', 'o', 'n'].as_slice());
    match get_cookie(h, name.as_str()) {
        None => None,
        Some(tok) => verify_session_at(secret, tok.as_str(), now),
    }
}

pub open spec fn session_cookie_name() -> Seq<char> {
    seq!['s', 'e', 's', 's', 'i', 'o', 'n']
}

/// The user of the `session` cookie, if its token verifies now.
pub fn check_auth(secret: &str, cookie_header: Option<&str>) -> (r: Option<String>)
    ensures
        cookie_header is None ==> r is None,
        r matches Some(u) ==> (cookie_header matches Some(h) && get_cookie_spec(
            h@,
            session_cookie_name(),
        ) matches Some(tok) && exists|now: u64| verify_spec(secret@, tok, now) == Some(u@)),
        r is None ==> (cookie_header matches Some(h) ==> (get_cookie_spec(h@, session_cookie_name())
            matches Some(tok) ==> exists|now: u64| verify_spec(secret@, tok, now) is None)),
{
    check_auth_at(secret, cookie_header, now_ms())
}

/// A lower-case hexadecimal digit.
pub open spec fn is_lower_hex(c: char) -> bool {
    ('0' <= c && c <= '9') || ('a' <= c && c <= 'f')
}

/// Hex text has two lower-case digits per byte.
pub proof fn lemma_hex_shape(b: Seq<u8>)
    ensures
        hex_spec(b).len() == 2 * b.len(),
        forall|i: int| 0 <= i < hex_spec(b).len() ==> is_lower_hex(#[trigger] hex_spec(b)[i]),
    decreases b.len(),
{
    if b.len() > 0 {
        lemma_hex_shape(b.drop_last());
        let p = hex_spec(b.drop_last());
        let h = hex_spec(b);
        assert forall|i: int| 0 <= i < h.len() implies is_lower_hex(#[trigger] h[i]) by {
            if i < p.len() {
                assert(h[i] == p[i]);
            }
        }
    }
}

proof fn lemma_hex_no_dot(b: Seq<u8>)
    ensures
        !hex_spec(b).contains('.'),
    decreases b.len(),
{
    if b.len() > 0 {
        lemma_hex_no_dot(b.drop_last());
        let h = hex_spec(b);
        let p = hex_spec(b.drop_last());
        if h.contains('.') {
            let j = choose|j: int| 0 <= j < h.len() && h[j] == '.';
            if j < p.len() {
                assert(p[j] == '.');
            } else {
                let hi = b.last() / 16;
                let lo = b.last() % 16;
                assert(hex_digit(hi) != '.');
                assert(hex_digit(lo) != '.');
            }
        }
    }
}

/// A token whose MAC part was changed, so that its bytes differ from the MAC
/// of the payload, is refused; this covers any bit flipped inside the MAC that
/// does not make a dot.
pub proof fn lemma_forged_mac_refused(secret: Seq<char>, payload: Seq<char>, mac: Seq<char>, now: u64)
    requires
        !mac.contains('.'),
        encode_utf8(mac) != encode_utf8(mac_spec(secret, payload)),
    ensures
        verify_spec(secret, payload.push('.') + mac, now) is None,
{
    let tok = payload.push('.') + mac;
    lemma_last_index_after(payload, '.', mac);
    let p2 = payload.len() as int;
    assert(tok.subrange(0, p2) =~= payload);
    assert(tok.subrange(p2 + 1, tok.len() as int) =~= mac);
}

/// A token whose payload was changed while it kept the issued MAC is
/// refused, as long as the MAC of the changed payload differs from the
/// issued one (HMAC has no collision on the two payloads).
pub proof fn lemma_forged_payload_refused(
    secret: Seq<char>,
    payload: Seq<char>,
    forged: Seq<char>,
    now: u64,
)
    requires
        encode_utf8(mac_spec(secret, forged)) != encode_utf8(mac_spec(secret, payload)),
    ensures
        verify_spec(secret, forged.push('.') + mac_spec(secret, payload), now) is None,
{
    lemma_hex_no_dot(hmac_sha256_of(secret, payload));
    lemma_forged_mac_refused(secret, forged, mac_spec(secret, payload), now);
}

/// A freshly issued token verifies to its username for the whole of its
/// lifetime, and is refused once it is older than the maximum age.
pub proof fn lemma_issue_then_verify(secret: Seq<char>, username: Seq<char>, ts: u64, now: u64)
    requires
        ts <= now,
    ensures
        now - ts <= SESSION_MAX_AGE_MS ==> verify_spec(secret, token_spec(secret, username, ts), now)
            == Some(username),
        now - ts > SESSION_MAX_AGE_MS ==> verify_spec(secret, token_spec(secret, username, ts), now)
            is None,
{
    let p = payload_spec(username, ts);
    let m = mac_spec(secret, p);
    let tok = token_spec(secret, username, ts);
    lemma_hex_no_dot(hmac_sha256_of(secret, p));
    lemma_last_index_after(p, '.', m);
    lemma_decimal_digits(ts as nat);
    lemma_last_index_after(username, '.', decimal(ts as nat));
    lemma_parse_decimal(ts);
    let p2 = p.len() as int;
    assert(tok.subrange(0, p2) =~= p);
    assert(tok.subrange(p2 + 1, tok.len() as int) =~= m);
    let p1 = username.len() as int;
    assert(p.subrange(p1 + 1, p2) =~= decimal(ts as nat));
    assert(tok.subrange(0, p2).subrange(p1 + 1, p2) =~= tok.subrange(p1 + 1, p2));
    assert(tok.subrange(p1 + 1, p2) =~= decimal(ts as nat));
    assert(tok.subrange(0, p1) =~= username);
}

} // verus!
