//! The wire messages: canonical JSON building and strict parsing.
use authn::{
    build_get_user_response, build_login_request, build_login_response, parse_get_user_response,
    parse_login_request, parse_login_response, GetUserResponse, PostLoginRequest,
    PostLoginResponse,
};

#[test]
fn login_request_round_trips() {
    let req = PostLoginRequest {
        aud: "app".to_string(),
        duration: 3600,
        name: "alice".to_string(),
        pass: "pw1".to_string(),
    };
    let bytes = build_login_request(&req);
    assert_eq!(
        String::from_utf8(bytes.clone()).unwrap(),
        "{\"aud\":\"app\",\"duration\":3600,\"name\":\"alice\",\"pass\":\"pw1\"}"
    );
    let back = parse_login_request(&bytes).unwrap();
    assert_eq!(back.aud, "app");
    assert_eq!(back.duration, 3600);
    assert_eq!(back.name, "alice");
    assert_eq!(back.pass, "pw1");
}

#[test]
fn login_request_escapes_special_characters() {
    let req = PostLoginRequest {
        aud: "app".to_string(),
        duration: 0,
        name: "a\"b\\c".to_string(),
        pass: "tab\there".to_string(),
    };
    let bytes = build_login_request(&req);
    let text = String::from_utf8(bytes.clone()).unwrap();
    assert_eq!(
        text,
        "{\"aud\":\"app\",\"duration\":0,\"name\":\"a\\\"b\\\\c\",\"pass\":\"tab\\u0009here\"}"
    );
    let back = parse_login_request(&bytes).unwrap();
    assert_eq!(back.name, "a\"b\\c");
    assert_eq!(back.pass, "tab\there");
}

#[test]
fn malformed_login_requests_are_rejected() {
    for bad in [
        "",
        "{}",
        "{\"aud\":\"app\"}",
        "{\"aud\":\"app\",\"duration\":3600,\"name\":\"alice\",\"pass\":\"pw1\"} ",
        "{\"aud\":\"app\",\"duration\":03600,\"name\":\"alice\",\"pass\":\"pw1\"}",
        "{\"aud\":\"app\",\"duration\":-1,\"name\":\"alice\",\"pass\":\"pw1\"}",
        "{\"duration\":3600,\"aud\":\"app\",\"name\":\"alice\",\"pass\":\"pw1\"}",
        "{\"aud\":\"app\",\"duration\":18446744073709551616,\"name\":\"a\",\"pass\":\"p\"}",
    ] {
        assert!(parse_login_request(&bad.as_bytes().to_vec()).is_none(), "{bad}");
    }
}

#[test]
fn login_response_round_trips() {
    let resp = PostLoginResponse { token: "abc.def.ghi".to_string() };
    let bytes = build_login_response(&resp);
    assert_eq!(
        String::from_utf8(bytes.clone()).unwrap(),
        "{\"token\":\"abc.def.ghi\"}"
    );
    let back = parse_login_response(&bytes).unwrap();
    assert_eq!(back.token, "abc.def.ghi");
}

#[test]
fn get_user_response_round_trips() {
    let resp = GetUserResponse { name: "alice".to_string(), token_version: 7 };
    let bytes = build_get_user_response(&resp);
    assert_eq!(
        String::from_utf8(bytes.clone()).unwrap(),
        "{\"name\":\"alice\",\"token_version\":7}"
    );
    let back = parse_get_user_response(&bytes).unwrap();
    assert_eq!(back.name, "alice");
    assert_eq!(back.token_version, 7);
}

#[test]
fn get_user_response_rejects_oversized_or_padded_versions() {
    let too_big = "{\"name\":\"a\",\"token_version\":4294967296}";
    assert!(parse_get_user_response(&too_big.as_bytes().to_vec()).is_none());
    let padded = "{\"name\":\"a\",\"token_version\":07}";
    assert!(parse_get_user_response(&padded.as_bytes().to_vec()).is_none());
    let max = "{\"name\":\"a\",\"token_version\":4294967295}";
    assert_eq!(
        parse_get_user_response(&max.as_bytes().to_vec()).unwrap().token_version,
        u32::MAX
    );
}
