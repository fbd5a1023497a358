use adedge::error::ServiceError;
use adedge::text::{decimal_string, parse_u64};
use adedge::upload::{
    bearer_token, default_upload_name, fresh_stored_name, is_contained_name, sanitize_filename,
    stored_name, upload_step, verify_upload_token, UploadAction, UploadEvent,
};

fn stream(chunks: &[u64], cap: u64) -> UploadAction {
    let mut received = 0u64;
    for &c in chunks {
        match upload_step(received, cap, UploadEvent::Chunk(c)) {
            UploadAction::Write(n) => received = n,
            other => return other,
        }
    }
    upload_step(received, cap, UploadEvent::End)
}

#[test]
fn body_over_cap_aborts() {
    let cap = 1024u64;
    assert_eq!(stream(&[512, 512, 1], cap), UploadAction::Abort(ServiceError::PayloadTooLarge));
    assert_eq!(stream(&[cap + 1], cap), UploadAction::Abort(ServiceError::PayloadTooLarge));
    assert_eq!(ServiceError::PayloadTooLarge.status_code(), 413);
}

#[test]
fn body_at_cap_finishes() {
    assert_eq!(stream(&[512, 512], 1024), UploadAction::Finish(1024));
    assert_eq!(stream(&[], 1024), UploadAction::Finish(0));
}

#[test]
fn stream_and_write_errors_abort() {
    assert_eq!(upload_step(3, 10, UploadEvent::StreamError), UploadAction::Abort(ServiceError::TransportFailure));
    assert_eq!(upload_step(3, 10, UploadEvent::WriteError), UploadAction::Abort(ServiceError::TransportFailure));
}

#[test]
fn sanitize_names() {
    assert_eq!(sanitize_filename("my cat (1).png"), "my_cat__1_.png");
    assert_eq!(sanitize_filename("../etc/passwd"), ".._etc_passwd");
    assert_eq!(sanitize_filename(""), "file");
    assert_eq!(sanitize_filename("ok-name_1.JPG"), "ok-name_1.JPG");
    assert_eq!(sanitize_filename("é"), "_");
}

#[test]
fn stored_names() {
    assert_eq!(stored_name(1700, "abc", "a b.png"), "1700-abc-a_b.png");
    let n = fresh_stored_name("x y");
    assert!(n.ends_with("-x_y"));
    assert_eq!(default_upload_name(42), "42.png");
}

#[test]
fn decimal_round_trip() {
    for n in [0u64, 7, 10, 99, 1234567890, u64::MAX] {
        assert_eq!(parse_u64(&decimal_string(n)), Some(n));
    }
    assert_eq!(parse_u64("+12"), Some(12));
    assert_eq!(parse_u64("18446744073709551616"), None);
    assert_eq!(parse_u64("1a"), None);
    assert_eq!(parse_u64(""), None);
    assert_eq!(parse_u64("+"), None);
}

#[test]
fn bearer_header() {
    assert_eq!(bearer_token("Bearer abc"), Some("abc".to_string()));
    assert_eq!(bearer_token("Basic abc"), None);
    assert_eq!(bearer_token("Bearer"), None);
}

#[test]
fn upload_token_check() {
    let hash = bcrypt::hash("tokentoken", 4).unwrap();
    assert!(verify_upload_token(Some("plain123"), &hash, "plain123"));
    assert!(verify_upload_token(None, &hash, "tokentoken"));
    assert!(!verify_upload_token(Some("plain123"), &hash, "other"));
    assert!(!verify_upload_token(Some(""), &hash, ""));
    assert!(!verify_upload_token(None, "not-a-hash", "x"));
}

#[test]
fn contained_names() {
    assert!(is_contained_name("1-a-b.png"));
    assert!(!is_contained_name("../secret"));
    assert!(!is_contained_name("a/b"));
    assert!(!is_contained_name(".."));
    assert!(!is_contained_name("."));
    assert!(!is_contained_name(""));
}
