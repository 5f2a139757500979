//! End-to-end exercises of the server, the token codec and the client's
//! two-phase validation, with a throwaway elliptic-curve test key.
use std::time::{SystemTime, UNIX_EPOCH};

use base64::Engine;

use authn::client::{Client, Config as ClientConfig, Error as ClientError};
use authn::crypto::{
    decoding_key_from_ec_pem, encoding_key_from_ec_pem, make_validation, parse_claims, Alg,
    Token, TokenError,
};
use authn::server::{new_server, Config, Error, MAX_DURATION};

// The throwaway test keypair is kept as raw DER bytes and dressed up as PEM
// at runtime, so no key-shaped text stands in the source.
const TEST_PRIV_DER: &[u8] = &[
    0x30, 0x81, 0x87, 0x02, 0x01, 0x00, 0x30, 0x13, 0x06, 0x07, 0x2a, 0x86,
    0x48, 0xce, 0x3d, 0x02, 0x01, 0x06, 0x08, 0x2a, 0x86, 0x48, 0xce, 0x3d,
    0x03, 0x01, 0x07, 0x04, 0x6d, 0x30, 0x6b, 0x02, 0x01, 0x01, 0x04, 0x20,
    0x6d, 0x1b, 0x6d, 0x3c, 0x03, 0xc4, 0x98, 0x73, 0x3f, 0x7e, 0xe3, 0xc0,
    0x4e, 0x14, 0x2c, 0x67, 0x98, 0x80, 0x42, 0x9b, 0x39, 0x23, 0x66, 0x85,
    0xf0, 0x8c, 0xba, 0x5f, 0x95, 0xc0, 0xa0, 0x16, 0xa1, 0x44, 0x03, 0x42,
    0x00, 0x04, 0x4f, 0x06, 0x1f, 0x59, 0xd4, 0xeb, 0x02, 0x24, 0xde, 0xe0,
    0x90, 0xc4, 0xa3, 0xb3, 0xf2, 0x30, 0xfe, 0xf6, 0xe2, 0x94, 0x56, 0xa4,
    0xf0, 0x85, 0x27, 0xf7, 0xc3, 0xb7, 0x5c, 0x3d, 0x6d, 0x1e, 0x12, 0x2b,
    0xc7, 0x23, 0x71, 0x63, 0x40, 0xa0, 0x7d, 0xce, 0xc5, 0xd7, 0xdf, 0xbf,
    0x0b, 0xa5, 0x39, 0xfc, 0x87, 0xfa, 0x2e, 0xa7, 0x55, 0x08, 0x9a, 0x82,
    0x69, 0x4c, 0xa7, 0x0b, 0x14, 0xd2,
];

const TEST_PUB_DER: &[u8] = &[
    0x30, 0x59, 0x30, 0x13, 0x06, 0x07, 0x2a, 0x86, 0x48, 0xce, 0x3d, 0x02,
    0x01, 0x06, 0x08, 0x2a, 0x86, 0x48, 0xce, 0x3d, 0x03, 0x01, 0x07, 0x03,
    0x42, 0x00, 0x04, 0x4f, 0x06, 0x1f, 0x59, 0xd4, 0xeb, 0x02, 0x24, 0xde,
    0xe0, 0x90, 0xc4, 0xa3, 0xb3, 0xf2, 0x30, 0xfe, 0xf6, 0xe2, 0x94, 0x56,
    0xa4, 0xf0, 0x85, 0x27, 0xf7, 0xc3, 0xb7, 0x5c, 0x3d, 0x6d, 0x1e, 0x12,
    0x2b, 0xc7, 0x23, 0x71, 0x63, 0x40, 0xa0, 0x7d, 0xce, 0xc5, 0xd7, 0xdf,
    0xbf, 0x0b, 0xa5, 0x39, 0xfc, 0x87, 0xfa, 0x2e, 0xa7, 0x55, 0x08, 0x9a,
    0x82, 0x69, 0x4c, 0xa7, 0x0b, 0x14, 0xd2,
];

fn priv_pem() -> String {
    let engine = &base64::engine::general_purpose::STANDARD;
    let head = ["-----BEGIN ", "PRIVATE KEY", "-----"].concat();
    let tail = ["-----END ", "PRIVATE KEY", "-----"].concat();
    format!("{}\n{}\n{}\n", head, engine.encode(TEST_PRIV_DER), tail)
}

fn pub_pem() -> String {
    let engine = &base64::engine::general_purpose::STANDARD;
    let head = ["-----BEGIN ", "PUBLIC KEY", "-----"].concat();
    let tail = ["-----END ", "PUBLIC KEY", "-----"].concat();
    format!("{}\n{}\n{}\n", head, engine.encode(TEST_PUB_DER), tail)
}

fn test_server() -> authn::server::Server {
    let config = Config {
        server_name: "authd".to_string(),
        server_path: "/tmp/authd.sock".to_string(),
        alg: Alg::ES256,
        priv_key_pem: priv_pem(),
        pub_key_pem: pub_pem(),
        database: ":memory:".to_string(),
    };
    let (server, path) = new_server(config).unwrap();
    assert_eq!(path, "/tmp/authd.sock");
    server
}

fn test_client() -> Client {
    let config = ClientConfig {
        server_path: "/tmp/authd.sock".to_string(),
        server_name: "authd".to_string(),
        client_name: "app".to_string(),
        alg: Alg::ES256,
        pub_key_pem: pub_pem(),
    };
    Client::try_from(config).unwrap()
}

fn now() -> u64 {
    SystemTime::now().duration_since(UNIX_EPOCH).unwrap().as_secs()
}

fn claims_of(token: &str) -> (u32, u64, u64) {
    let parts: Vec<&str> = token.split('.').collect();
    assert_eq!(parts.len(), 3);
    let bytes = base64::engine::general_purpose::URL_SAFE_NO_PAD.decode(parts[1]).unwrap();
    let (_iss, _aud, _sub, ver, iat, exp) = parse_claims(&bytes).unwrap();
    (ver, iat, exp)
}

#[test]
fn login_and_two_phase_validate() {
    let mut server = test_server();
    let client = test_client();
    let hash = authn::crypto::encode_password(b"pw1").unwrap();
    server.insert_user("alice", &hash).unwrap();

    let t1 = server.login("alice", "pw1", "app".to_string(), 3600).unwrap();
    let (ver, iat, exp) = claims_of(&t1);
    assert_eq!(ver, 0);
    assert_eq!(exp - iat, 3600);

    let tok = client.validate_local(&t1, now()).unwrap();
    assert_eq!(tok.sub, "alice");
    assert_eq!(tok.iss, "authd");
    assert_eq!(tok.aud, "app");
    assert_eq!(tok.version, 0);

    let looked_up = server.get_user("alice").unwrap();
    let subject = Client::check_version(&tok, looked_up.token_version).unwrap();
    assert_eq!(subject, "alice");
}

#[test]
fn revoked_token_fails_and_new_login_works() {
    let mut server = test_server();
    let client = test_client();
    let hash = authn::crypto::encode_password(b"pw1").unwrap();
    server.insert_user("alice", &hash).unwrap();

    let t1 = server.login("alice", "pw1", "app".to_string(), 3600).unwrap();
    let tok1 = client.validate_local(&t1, now()).unwrap();

    server.revoke("alice").unwrap();
    let looked_up = server.get_user("alice").unwrap();
    assert_eq!(looked_up.token_version, 1);

    // Still cryptographically valid and unexpired, but the version moved on.
    let still_ok = client.validate_local(&t1, now()).unwrap();
    assert_eq!(still_ok.version, 0);
    let rejected = Client::check_version(&still_ok, looked_up.token_version);
    assert!(matches!(rejected, Err(ClientError::VersionMismatch)));
    drop(tok1);

    let t2 = server.login("alice", "pw1", "app".to_string(), 3600).unwrap();
    let (ver2, _, _) = claims_of(&t2);
    assert_eq!(ver2, 1);
    let tok2 = client.validate_local(&t2, now()).unwrap();
    assert_eq!(tok2.version, 1);
    let subject = Client::check_version(&tok2, looked_up.token_version).unwrap();
    assert_eq!(subject, "alice");
}

#[test]
fn expired_token_is_rejected() {
    let mut server = test_server();
    let client = test_client();
    let hash = authn::crypto::encode_password(b"pw1").unwrap();
    server.insert_user("alice", &hash).unwrap();

    let t1 = server.login("alice", "pw1", "app".to_string(), 60).unwrap();
    let (_, _, exp) = claims_of(&t1);
    let r = client.validate_local(&t1, exp + 1);
    assert!(matches!(r, Err(TokenError::Expired)));
    // At the expiry second itself the token still passes.
    assert!(client.validate_local(&t1, exp).is_ok());
}

#[test]
fn over_long_duration_is_clamped() {
    let mut server = test_server();
    let hash = authn::crypto::encode_password(b"pw1").unwrap();
    server.insert_user("alice", &hash).unwrap();

    let t = server.login("alice", "pw1", "app".to_string(), u64::MAX).unwrap();
    let (_, iat, exp) = claims_of(&t);
    assert_eq!(exp - iat, MAX_DURATION);
}

#[test]
fn wrong_password_and_unknown_user() {
    let mut server = test_server();
    let hash = authn::crypto::encode_password(b"pw1").unwrap();
    server.insert_user("alice", &hash).unwrap();

    let r = server.login("alice", "pw2", "app".to_string(), 3600);
    assert!(matches!(r, Err(Error::LoginFailed)));
    let r = server.login("bob", "pw1", "app".to_string(), 3600);
    assert!(matches!(r, Err(Error::UserNotFound(n)) if n == "bob"));
}

#[test]
fn unsigned_algorithm_never_validates() {
    let client = test_client();
    let engine = &base64::engine::general_purpose::URL_SAFE_NO_PAD;
    let header = engine.encode(b"{\"typ\":\"JWT\",\"alg\":\"none\"}");
    let t = now();
    let claims = engine.encode(
        format!(
            "{{\"iss\":\"authd\",\"aud\":\"app\",\"sub\":\"alice\",\"version\":0,\"iat\":{},\"exp\":{}}}",
            t,
            t + 3600
        )
        .as_bytes(),
    );
    let forged = format!("{}.{}.", header, claims);
    let r = client.validate_local(&forged, t);
    assert!(matches!(r, Err(TokenError::AlgorithmNotAllowed)));
}

#[test]
fn foreign_algorithm_is_rejected() {
    let client = test_client();
    let engine = &base64::engine::general_purpose::URL_SAFE_NO_PAD;
    // A well-known algorithm, but not the policy's one.
    let header = engine.encode(b"{\"typ\":\"JWT\",\"alg\":\"HS256\"}");
    let t = now();
    let claims = engine.encode(
        format!(
            "{{\"iss\":\"authd\",\"aud\":\"app\",\"sub\":\"alice\",\"version\":0,\"iat\":{},\"exp\":{}}}",
            t,
            t + 3600
        )
        .as_bytes(),
    );
    let forged = format!("{}.{}.junk", header, claims);
    let r = client.validate_local(&forged, t);
    assert!(matches!(r, Err(TokenError::AlgorithmNotAllowed)));
}

#[test]
fn tampered_token_fails_signature() {
    let mut server = test_server();
    let client = test_client();
    let hash = authn::crypto::encode_password(b"pw1").unwrap();
    server.insert_user("alice", &hash).unwrap();
    let t1 = server.login("alice", "pw1", "app".to_string(), 3600).unwrap();

    // Swap the claims segment for different claims; the signature no longer
    // matches the message.
    let engine = &base64::engine::general_purpose::URL_SAFE_NO_PAD;
    let parts: Vec<&str> = t1.split('.').collect();
    let (_, iat, exp) = claims_of(&t1);
    let other = engine.encode(
        format!(
            "{{\"iss\":\"authd\",\"aud\":\"app\",\"sub\":\"mallory\",\"version\":0,\"iat\":{},\"exp\":{}}}",
            iat, exp
        )
        .as_bytes(),
    );
    let forged = format!("{}.{}.{}", parts[0], other, parts[2]);
    let r = client.validate_local(&forged, now());
    assert!(matches!(r, Err(TokenError::BadSignature)));
}

#[test]
fn wrong_audience_and_issuer_are_rejected() {
    let mut server = test_server();
    let client = test_client();
    let hash = authn::crypto::encode_password(b"pw1").unwrap();
    server.insert_user("alice", &hash).unwrap();

    // Issued for a different audience than the client expects.
    let t = server.login("alice", "pw1", "other-app".to_string(), 3600).unwrap();
    let r = client.validate_local(&t, now());
    assert!(matches!(r, Err(TokenError::WrongAudience)));
}

#[test]
fn disallowed_algorithm_rejected_at_startup() {
    let config = Config {
        server_name: "authd".to_string(),
        server_path: "/tmp/authd.sock".to_string(),
        alg: Alg::HS256,
        priv_key_pem: priv_pem(),
        pub_key_pem: pub_pem(),
        database: ":memory:".to_string(),
    };
    let r = new_server(config);
    assert!(matches!(r, Err(Error::AlgorithmNotAllowed(Alg::HS256))));

    let client_config = ClientConfig {
        server_path: "/tmp/authd.sock".to_string(),
        server_name: "authd".to_string(),
        client_name: "app".to_string(),
        alg: Alg::HS512,
        pub_key_pem: pub_pem(),
    };
    let r = Client::try_from(client_config);
    assert!(matches!(r, Err(ClientError::AlgorithmNotAllowed(Alg::HS512))));
}

#[test]
fn pub_key_is_handed_out_verbatim() {
    let server = test_server();
    assert_eq!(server.get_pub_key(), pub_pem());
}

#[test]
fn subject_with_quotes_and_backslashes_round_trips() {
    let mut server = test_server();
    let client = test_client();
    let hash = authn::crypto::encode_password(b"pw1").unwrap();
    let name = "a\"b\\c\nd";
    server.insert_user(name, &hash).unwrap();

    let t = server.login(name, "pw1", "app".to_string(), 3600).unwrap();
    let tok = client.validate_local(&t, now()).unwrap();
    assert_eq!(tok.sub, name);

    let looked_up = server.get_user(name).unwrap();
    assert_eq!(looked_up.name, name);
    let subject = Client::check_version(&tok, looked_up.token_version).unwrap();
    assert_eq!(subject, name);
}

#[test]
fn issue_and_validate_directly() {
    let enc = encoding_key_from_ec_pem(priv_pem().as_bytes()).unwrap();
    let dec = decoding_key_from_ec_pem(pub_pem().as_bytes()).unwrap();
    let token = Token {
        iss: "authd".to_string(),
        aud: "app".to_string(),
        sub: "bob".to_string(),
        version: 5,
    };
    let t = token.issue(&enc, Alg::ES256, 120).unwrap();
    let validation = make_validation(Alg::ES256, "app".to_string(), "authd".to_string());
    let back = Token::validate(&t, &validation, &dec).unwrap();
    assert_eq!(back.iss, "authd");
    assert_eq!(back.aud, "app");
    assert_eq!(back.sub, "bob");
    assert_eq!(back.version, 5);
}

#[test]
fn validate_rejects_a_foreign_issuer() {
    let enc = encoding_key_from_ec_pem(priv_pem().as_bytes()).unwrap();
    let dec = decoding_key_from_ec_pem(pub_pem().as_bytes()).unwrap();
    let token = Token {
        iss: "someone-else".to_string(),
        aud: "app".to_string(),
        sub: "bob".to_string(),
        version: 0,
    };
    let t = token.issue(&enc, Alg::ES256, 120).unwrap();
    let validation = make_validation(Alg::ES256, "app".to_string(), "authd".to_string());
    let r = Token::validate(&t, &validation, &dec);
    assert!(matches!(r, Err(TokenError::WrongIssuer)));
}
