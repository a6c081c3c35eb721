use fshare::authenticator::{split_once_at, Authenticator, PamAuthenticator, PasswdFileAuthenticator};
use fshare::basic_auth::{basic_credentials, credentials_from_bytes, is_authorized};

fn users() -> PasswdFileAuthenticator {
    PasswdFileAuthenticator::from_content(
        "# comment line\nalice secret\nbob first pass\r\nnospace\n#carol hidden\nalice newer\n",
    )
}

#[test]
fn password_file_lines() {
    let a = users();
    assert!(a.authenticate("alice", "newer"));
    assert!(!a.authenticate("alice", "secret"));
    assert!(a.authenticate("bob", "first pass"));
    assert!(!a.authenticate("carol", "hidden"));
    assert!(!a.authenticate("#carol", "hidden"));
    assert!(!a.authenticate("nospace", ""));
    assert!(!a.authenticate("dave", ""));
}

#[test]
fn empty_password_file_accepts_nobody() {
    let a = PasswdFileAuthenticator::from_content("");
    assert!(!a.authenticate("", ""));
}

#[test]
fn split_at_first_separator() {
    assert_eq!(split_once_at("a:b:c", ':'), Some(("a".to_string(), "b:c".to_string())));
    assert_eq!(split_once_at(":x", ':'), Some(("".to_string(), "x".to_string())));
    assert_eq!(split_once_at("abc", ':'), None);
}

#[test]
fn basic_header_decoding() {
    assert_eq!(
        basic_credentials("Basic YWxpY2U6c2VjcmV0"),
        Some(("alice".to_string(), "secret".to_string()))
    );
    assert_eq!(
        basic_credentials("Basic Ym9iOnA6dw=="),
        Some(("bob".to_string(), "p:w".to_string()))
    );
    assert_eq!(basic_credentials("Basic bm9jb2xvbg=="), None);
    assert_eq!(basic_credentials("Bearer YWxpY2U6c2VjcmV0"), None);
    assert_eq!(basic_credentials("Basic ***"), None);
    assert_eq!(basic_credentials("Basic"), None);
    assert_eq!(basic_credentials("Basic //46eA=="), None);
}

#[test]
fn credentials_need_utf8_and_a_colon() {
    assert_eq!(
        credentials_from_bytes(b"u:p".to_vec()),
        Some(("u".to_string(), "p".to_string()))
    );
    assert_eq!(credentials_from_bytes(vec![0xff, b':', b'x']), None);
    assert_eq!(credentials_from_bytes(b"up".to_vec()), None);
}

#[test]
fn authorization_of_requests() {
    let a = PasswdFileAuthenticator::from_content("alice secret\n");
    assert!(is_authorized(&a, Some("Basic YWxpY2U6c2VjcmV0")));
    assert!(!is_authorized(&a, Some("Basic Ym9iOnA6dw==")));
    assert!(!is_authorized(&a, Some("YWxpY2U6c2VjcmV0")));
    assert!(!is_authorized(&a, None));
}

#[test]
fn pam_authenticator_keeps_its_service() {
    let p = PamAuthenticator::new("login".to_string());
    assert_eq!(p.pam_module(), "login");
}

#[test]
fn password_lines_given_directly() {
    let lines: Vec<String> = vec!["# users", "eve pw one", "eve pw2", "mallory"]
        .into_iter()
        .map(String::from)
        .collect();
    let a = PasswdFileAuthenticator::from_lines(&lines);
    assert!(a.authenticate("eve", "pw2"));
    assert!(!a.authenticate("eve", "pw one"));
    assert!(!a.authenticate("mallory", ""));
}

#[test]
fn line_ends_of_a_password_file() {
    let a = PasswdFileAuthenticator::from_content("u1 p1\r\nu2 p2\nu3 p3\r");
    assert!(a.authenticate("u1", "p1"));
    assert!(a.authenticate("u2", "p2"));
    assert!(a.authenticate("u3", "p3\r"));
    assert!(!a.authenticate("u3", "p3"));
    let b = PasswdFileAuthenticator::from_content("u4 p4\n\nu5 p5\n");
    assert!(b.authenticate("u4", "p4"));
    assert!(b.authenticate("u5", "p5"));
}
