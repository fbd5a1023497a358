use adedge::web::{
    escape_html, get_cookie, get_origin, host_from_url, join_url, prefer_https_origin,
    resolve_public_origin,
};

#[test]
fn escapes_html() {
    assert_eq!(escape_html("<a href=\"x\">&</a>"), "&lt;a href=&quot;x&quot;&gt;&amp;&lt;/a&gt;");
    assert_eq!(escape_html("plain"), "plain");
}

#[test]
fn joins_urls() {
    assert_eq!(join_url("http://h", "/i/x"), "http://h/i/x");
    assert_eq!(join_url("http://h///", "/i/x"), "http://h/i/x");
}

#[test]
fn hosts_from_urls() {
    assert_eq!(host_from_url("https://example.com/path"), Some("example.com".to_string()));
    assert_eq!(host_from_url("http://h:8080"), Some("h:8080".to_string()));
    assert_eq!(host_from_url("nohost"), None);
    assert_eq!(host_from_url("http:///x"), None);
    assert_eq!(host_from_url("a://b://c"), Some("b".to_string()));
    assert_eq!(host_from_url("http:// h /"), Some("h".to_string()));
}

#[test]
fn cookies() {
    assert_eq!(get_cookie("a=1; session=tok; b=2", "session"), Some("tok".to_string()));
    assert_eq!(get_cookie("session", "session"), Some("".to_string()));
    assert_eq!(get_cookie("a=1", "session"), None);
    assert_eq!(get_cookie(" session = v=w ", "session"), Some(" v=w".to_string()));
}

#[test]
fn origins() {
    assert_eq!(get_origin(None, "http", None, "h"), "http://h");
    assert_eq!(get_origin(Some("https"), "http", Some("f"), "h"), "https://f");
    assert_eq!(prefer_https_origin("http://h", Some("HTTPS"), false), "https://h");
    assert_eq!(prefer_https_origin("http://h", None, true), "https://h");
    assert_eq!(prefer_https_origin("http://h", None, false), "http://h");
}

#[test]
fn public_origin() {
    assert_eq!(resolve_public_origin(Some(" https://x.org// "), false, 80, 443, None, None, None), "https://x.org");
    assert_eq!(resolve_public_origin(None, true, 80, 443, Some(" h.io "), None, None), "https://h.io");
    assert_eq!(resolve_public_origin(None, false, 80, 443, None, Some("http://o.io/x"), None), "http://o.io");
    assert_eq!(resolve_public_origin(Some("   "), false, 3000, 443, None, None, None), "http://localhost:3000");
    assert_eq!(resolve_public_origin(None, true, 3000, 8443, Some(""), None, Some("https://r.io/p")), "https://r.io");
}
