use save_manager::auth_server::{
    code_from_header, create_simple_response, generate_auth_link, token_response, STATUS_BAD_REQUEST,
    STATUS_NOT_ACCEPTABLE, STATUS_OK, STATUS_PERMANENT_REDIRECT,
};

#[test]
fn auth_link_redirects() {
    let r = generate_auth_link(&"https://www.dropbox.com/oauth2/authorize?x=1".to_string());
    assert_eq!(r.status, STATUS_PERMANENT_REDIRECT);
    assert_eq!(r.status, 308);
    assert_eq!(r.location.as_deref(), Some("https://www.dropbox.com/oauth2/authorize?x=1"));
    assert_eq!(
        r.body,
        "If you didn't get redirect go to this link: https://www.dropbox.com/oauth2/authorize?x=1"
    );
}

#[test]
fn simple_response() {
    let r = create_simple_response(418, "teapot".to_string());
    assert_eq!(r.status, 418);
    assert!(r.location.is_none());
    assert_eq!(r.body, "teapot");
}

#[test]
fn missing_header_is_bad_request() {
    match code_from_header(None) {
        Err(r) => {
            assert_eq!(r.status, STATUS_BAD_REQUEST);
            assert_eq!(r.status, 400);
            assert_eq!(r.body, "Missing header value");
        }
        Ok(_) => panic!("expected an answer"),
    }
}

#[test]
fn header_code_text() {
    assert_eq!(code_from_header(Some(b"abc\tDEF-123".to_vec())).ok(), Some("abc\tDEF-123".to_string()));
    assert_eq!(code_from_header(Some(vec![b'a', 0x7f])).ok(), Some(String::new()));
    assert_eq!(code_from_header(Some(vec![0xc3, 0xa9])).ok(), Some(String::new()));
    assert_eq!(code_from_header(Some(vec![])).ok(), Some(String::new()));
}

#[test]
fn token_responses() {
    let ok = token_response(Some("token".to_string()));
    assert_eq!((ok.status, ok.body.as_str()), (STATUS_OK, "token"));
    let bad = token_response(None);
    assert_eq!(bad.status, STATUS_NOT_ACCEPTABLE);
    assert_eq!(bad.status, 406);
    assert_eq!(bad.body, "Provided code is not valid!");
}
