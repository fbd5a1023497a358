use adedge::session::{
    check_auth_at, sign_session, timing_equal, verify_session, verify_session_at,
    SESSION_MAX_AGE_MS,
};

const SECRET: &str = "0123456789abcdef0123456789abcdef";

#[test]
fn token_has_three_parts_and_hex_mac() {
    let tok = sign_session(SECRET, "alice", 1700000000000);
    assert!(tok.starts_with("alice.1700000000000."));
    let mac = tok.rsplit('.').next().unwrap();
    assert_eq!(mac.len(), 64);
    assert!(mac.chars().all(|c| c.is_ascii_digit() || ('a'..='f').contains(&c)));
}

#[test]
fn known_hmac_value() {
    let tok = sign_session("key", "u", 1);
    assert_eq!(
        tok,
        "u.1.d3efd18c2f7cde4704e3f28db126f24025bd9cd6497edbcd648da7381e9a7db8"
    );
    let again = sign_session("key", "u", 1);
    assert_eq!(tok, again);
    let other_key = sign_session("key2", "u", 1);
    assert_ne!(tok, other_key);
}

#[test]
fn issue_then_verify_returns_user() {
    let ts = 1700000000000u64;
    let tok = sign_session(SECRET, "alice", ts);
    assert_eq!(verify_session_at(SECRET, &tok, ts), Some("alice".to_string()));
    assert_eq!(verify_session_at(SECRET, &tok, ts + 1000), Some("alice".to_string()));
}

#[test]
fn issue_then_verify_now() {
    let tok = adedge::session::issue_session(SECRET, "bob");
    assert_eq!(verify_session(SECRET, &tok), Some("bob".to_string()));
}

#[test]
fn username_with_dots_verifies() {
    let ts = 5u64;
    let tok = sign_session(SECRET, "a.b.c", ts);
    assert_eq!(verify_session_at(SECRET, &tok, ts), Some("a.b.c".to_string()));
}

#[test]
fn any_single_bit_flip_is_rejected() {
    let ts = 1700000000000u64;
    let tok = sign_session(SECRET, "alice", ts);
    let bytes = tok.as_bytes().to_vec();
    for i in 0..bytes.len() {
        for bit in 0..7 {
            let mut b = bytes.clone();
            b[i] ^= 1 << bit;
            if let Ok(s) = String::from_utf8(b) {
                if s != tok {
                    assert_eq!(verify_session_at(SECRET, &s, ts), None, "flip at {} bit {}", i, bit);
                }
            }
        }
    }
}

#[test]
fn expired_token_is_rejected() {
    let now = 1700000000000u64;
    let ts = now - SESSION_MAX_AGE_MS - 1;
    let tok = sign_session(SECRET, "alice", ts);
    assert_eq!(verify_session_at(SECRET, &tok, now), None);
    let ts_edge = now - SESSION_MAX_AGE_MS;
    let tok_edge = sign_session(SECRET, "alice", ts_edge);
    assert_eq!(verify_session_at(SECRET, &tok_edge, now), Some("alice".to_string()));
}

#[test]
fn wrong_secret_or_shape_is_rejected() {
    let tok = sign_session(SECRET, "alice", 10);
    assert_eq!(verify_session_at("other", &tok, 10), None);
    assert_eq!(verify_session_at(SECRET, "no-dots", 10), None);
    assert_eq!(verify_session_at(SECRET, "one.dot", 10), None);
    assert_eq!(verify_session_at(SECRET, "", 10), None);
}

#[test]
fn non_numeric_timestamp_is_rejected_even_with_valid_mac() {
    // The MAC covers "alice.x", but "x" is no timestamp.
    let t = sign_session(SECRET, "alice", 0);
    let forged = t.replacen(".0.", ".x.", 1);
    assert_eq!(verify_session_at(SECRET, &forged, 0), None);
}

#[test]
fn timing_equal_compares_whole_strings() {
    assert!(timing_equal("abc", "abc"));
    assert!(timing_equal("", ""));
    assert!(!timing_equal("abc", "abd"));
    assert!(!timing_equal("abc", "ab"));
    assert!(!timing_equal("ab", "abc"));
}

#[test]
fn session_cookie_is_read_from_header() {
    let tok = sign_session(SECRET, "carol", 100);
    let header = format!("theme=dark; session={}; other=1", tok);
    assert_eq!(check_auth_at(SECRET, Some(&header), 100), Some("carol".to_string()));
    assert_eq!(check_auth_at(SECRET, Some("theme=dark"), 100), None);
    assert_eq!(check_auth_at(SECRET, None, 100), None);
}
