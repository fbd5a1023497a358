use adedge::config::parse_env;

#[test]
fn env_lines_are_parsed() {
    let text = "# comment\nPORT=3000\n\n  SESSION_SECRET = abc=def  \r\nnoequals\nEMPTY=\n#X=1\nPORT=4000";
    let got = parse_env(text);
    let want: Vec<(String, String)> = vec![
        ("PORT".into(), "3000".into()),
        ("SESSION_SECRET".into(), "abc=def".into()),
        ("EMPTY".into(), "".into()),
        ("PORT".into(), "4000".into()),
    ];
    assert_eq!(got, want);
}

#[test]
fn empty_env_text() {
    assert!(parse_env("").is_empty());
    assert!(parse_env("\n\n").is_empty());
}
