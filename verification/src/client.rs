//! The remote-side validator: local cryptographic checks plus the decision
//! rules of the one revocation round trip. The network transport itself
//! lives outside this crate; it hands bytes in and takes bytes back.
use vstd::prelude::*;
use vstd::string::StrSliceExecFns;
use vstd::utf8::encode_utf8;

use crate::crypto::{
    alg_allowed, decoding_key_from_ec_pem, decoding_key_from_rsa_pem, make_validation,
    spec_alg_allowed, validate_matches_at, Alg, Token, TokenError, Validation,
};

verus! {

/// Every way the client's operations can fail; transport failures of the
/// surrounding program are mapped into it explicitly.
#[derive(Debug)]
pub enum Error {
    /// The configuration names an algorithm outside the allow-list.
    AlgorithmNotAllowed(Alg),
    /// The token's revocation counter is not the user's current one.
    VersionMismatch,
    /// The server reported an error message.
    Api(String),
    /// The token failed its local validation.
    Token(TokenError),
    /// The verification-key material could not be read.
    Key,
    /// The transport to the server failed.
    Transport,
    /// The server's response was not in the expected form.
    BadResponse,
}

/// What the client is configured with; the verification key is handed in as
/// PEM text, read from wherever the surrounding program keeps it.
pub struct Config {
    pub server_path: String,
    pub server_name: String,
    pub client_name: String,
    pub alg: Alg,
    pub pub_key_pem: String,
}

/// A ready validator: the socket path, this client's name (the audience it
/// expects in tokens), the cached verification key, and the expectation
/// tokens are checked against.
pub struct Client {
    path: String,
    client_name: String,
    pub_key: jsonwebtoken::DecodingKey,
    validation: Validation,
}

impl Client {
    /// The bind target of the server this client talks to.
    pub closed spec fn spec_path(self) -> Seq<char> {
        self.path@
    }

    /// The audience this client expects of a token.
    pub closed spec fn spec_aud(self) -> Seq<u8> {
        self.validation.aud@
    }

    /// The issuer this client expects of a token.
    pub closed spec fn spec_iss(self) -> Seq<u8> {
        self.validation.iss@
    }

    /// The one algorithm this client accepts.
    pub closed spec fn spec_alg(self) -> Alg {
        self.validation.alg
    }

    /// Builds a client from its configuration: rejects a disallowed
    /// algorithm outright and loads the cached verification key.
    pub fn try_from(config: Config) -> (r: Result<Client, Error>)
        ensures
            match r {
                Ok(c) => spec_alg_allowed(config.alg) && c.spec_alg() == config.alg && c.spec_iss()
                    == encode_utf8(config.server_name@) && c.spec_aud() == encode_utf8(
                    config.client_name@,
                ) && c.spec_path() == config.server_path@,
                Err(e) => match e {
                    Error::AlgorithmNotAllowed(a) => a == config.alg && !spec_alg_allowed(
                        config.alg,
                    ),
                    Error::Key => spec_alg_allowed(config.alg),
                    _ => false,
                },
            },
    {
        let alg = config.alg;
        if !alg_allowed(alg) {
            return Err(Error::AlgorithmNotAllowed(alg));
        }
        let pem = config.pub_key_pem.as_str().as_bytes_vec();
        let pub_key = match alg {
            Alg::ES256 | Alg::ES384 => match decoding_key_from_ec_pem(pem.as_slice()) {
                Some(k) => k,
                None => {
                    return Err(Error::Key);
                },
            },
            _ => match decoding_key_from_rsa_pem(pem.as_slice()) {
                Some(k) => k,
                None => {
                    return Err(Error::Key);
                },
            },
        };
        let validation = make_validation(alg, config.client_name.clone(), config.server_name);
        Ok(Client { path: config.server_path, client_name: config.client_name, pub_key, validation })
    }

    /// Phase one of validation, entirely offline: signature, canonical
    /// shape, algorithm allow-list, expiry, issuer and audience, against the
    /// cached key. Rejects almost every invalid token without network cost;
    /// only revocation needs the round trip.
    pub fn validate_local(&self, token: &str, now: u64) -> (r: Result<Token, TokenError>)
        ensures
            validate_matches_at(
                r,
                encode_utf8(token@),
                self.spec_alg(),
                self.spec_iss(),
                self.spec_aud(),
                now,
            ),
    {
        Token::validate_at(token, &self.validation, &self.pub_key, now)
    }

    /// Phase two of validation: accepts the token exactly when the version
    /// it embeds equals the user's current one, and yields the subject.
    pub fn check_version(tok: &Token, current_version: u32) -> (r: Result<String, Error>)
        ensures
            match r {
                Ok(s) => tok.version == current_version && s@ == tok.sub@,
                Err(e) => tok.version != current_version && e matches Error::VersionMismatch,
            },
    {
        if tok.version != current_version {
            Err(Error::VersionMismatch)
        } else {
            Ok(tok.sub.clone())
        }
    }

    /// The request path of the user lookup for `sub`.
    pub fn user_path(sub: &str) -> (r: String)
        ensures
            r@ == "/user/"@ + sub@,
    {
        let mut out = String::from_str("/user/");
        out.append(sub);
        out
    }
}

} // verus!
