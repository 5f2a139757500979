//! The authentication server: owns the signing-key material, the policy
//! (allowed algorithm, maximum token lifetime) and the credential store, and
//! implements login, lookup and revocation over them.
use vstd::prelude::*;
use vstd::string::StrSliceExecFns;
use vstd::utf8::encode_utf8;

use crate::crypto::{
    alg_allowed, encoding_key_from_ec_pem, encoding_key_from_rsa_pem, spec_alg_allowed,
    spec_token_bytes, token_segments_good, verify_password, Alg, PasswordError, Token, TokenError,
};
use crate::crypto::argon2_verify_outcome;
use crate::database::Database;
use crate::GetUserResponse;

verus! {

/// The longest lifetime a token may be issued with, in seconds: thirty days.
/// A longer request is clamped, bounding the blast radius of a leaked token.
pub const MAX_DURATION: u64 = 60 * 60 * 24 * 30;

/// Every way the server's operations can fail, as one explicit union;
/// boundary failures of the store, the hashing and the signing are mapped
/// into it rather than carried through implicit conversions.
#[derive(Debug)]
pub enum Error {
    /// An insert hit an existing record of the same name.
    DuplicateName(String),
    /// A lookup found no record of the name.
    UserNotFound(String),
    /// A requested token lifetime was rejected outright.
    TokenDurationTooBig,
    /// A request payload was malformed.
    BadRequest,
    /// The configuration names an algorithm outside the allow-list.
    AlgorithmNotAllowed(Alg),
    /// The password did not match the stored hash.
    LoginFailed,
    /// Token issuance or validation failed.
    Token(TokenError),
    /// The stored password hash could not be checked.
    Password(PasswordError),
    /// The key material could not be read.
    Key,
    /// The credential store failed.
    Storage,
}

/// What the server is configured with; key material is handed in as PEM
/// text, read from wherever the surrounding program keeps it.
pub struct Config {
    pub server_name: String,
    pub server_path: String,
    pub alg: Alg,
    pub priv_key_pem: String,
    pub pub_key_pem: String,
    pub database: String,
}

/// A ready authentication server.
pub struct Server {
    server_name: String,
    alg: Alg,
    priv_key: jsonwebtoken::EncodingKey,
    pub_key: String,
    database: Database,
}

impl Server {
    /// The issuer name this server signs as.
    pub closed spec fn spec_server_name(self) -> Seq<char> {
        self.server_name@
    }

    /// The one algorithm this server signs with.
    pub closed spec fn spec_alg(self) -> Alg {
        self.alg
    }

    /// The verification-key material this server hands out.
    pub closed spec fn spec_pub_key(self) -> Seq<char> {
        self.pub_key@
    }

    /// The credential store's contents.
    pub closed spec fn users(self) -> Map<Seq<char>, (Seq<char>, u32)> {
        self.database.users()
    }
}

/// A requested lifetime clamped to `MAX_DURATION`.
pub open spec fn spec_clamped(duration: u64) -> u64 {
    if duration > MAX_DURATION {
        MAX_DURATION
    } else {
        duration
    }
}

/// Builds a server from its configuration: rejects a disallowed algorithm
/// outright (fail fast, not at first login), loads the signing key, and
/// opens the credential store. Returns the server and its bind target.
pub fn new_server(config: Config) -> (r: Result<(Server, String), Error>)
    ensures
        match r {
            Ok((s, path)) => spec_alg_allowed(config.alg) && s.spec_alg() == config.alg
                && s.spec_server_name() == config.server_name@ && s.spec_pub_key()
                == config.pub_key_pem@ && path@ == config.server_path@,
            Err(e) => match e {
                Error::AlgorithmNotAllowed(a) => a == config.alg && !spec_alg_allowed(config.alg),
                Error::Key => spec_alg_allowed(config.alg),
                Error::Storage => spec_alg_allowed(config.alg),
                _ => false,
            },
        },
{
    let alg = config.alg;
    if !alg_allowed(alg) {
        return Err(Error::AlgorithmNotAllowed(alg));
    }
    let pem = config.priv_key_pem.as_str().as_bytes_vec();
    let priv_key = match alg {
        Alg::ES256 | Alg::ES384 => match encoding_key_from_ec_pem(pem.as_slice()) {
            Some(k) => k,
            None => {
                return Err(Error::Key);
            },
        },
        _ => match encoding_key_from_rsa_pem(pem.as_slice()) {
            Some(k) => k,
            None => {
                return Err(Error::Key);
            },
        },
    };
    let database = match Database::new(config.database.as_str()) {
        Ok(d) => d,
        Err(_) => {
            return Err(Error::Storage);
        },
    };
    let server = Server {
        server_name: config.server_name,
        alg,
        priv_key,
        pub_key: config.pub_key_pem,
        database,
    };
    Ok((server, config.server_path))
}

impl Server {
    /// Logs a user in: looks the record up (`UserNotFound` exactly when the
    /// store lacks the name), checks the password (`LoginFailed` exactly on
    /// a mismatch), clamps the requested lifetime to `MAX_DURATION`, and
    /// issues a token carrying the record's current revocation counter.
    #[verifier::rlimit(100)]
    #[verifier::spinoff_prover]
    pub fn login(&self, name: &str, pass: &str, aud: String, duration: u64) -> (r: Result<
        String,
        Error,
    >)
        ensures
            r.is_ok() ==> self.users().contains_key(name@) && argon2_verify_outcome(
                self.users()[name@].0,
                encode_utf8(pass@),
            ) == Some(true),
            r.is_ok() ==> exists|iat: u64, sig: Seq<u8>|
                iat + spec_clamped(duration) <= u64::MAX && encode_utf8(r.unwrap()@)
                    == #[trigger] spec_token_bytes(
                    self.spec_alg(),
                    encode_utf8(self.spec_server_name()),
                    encode_utf8(aud@),
                    encode_utf8(name@),
                    self.users()[name@].1,
                    iat,
                    (iat + spec_clamped(duration)) as u64,
                    sig,
                ) && token_segments_good(
                    self.spec_alg(),
                    encode_utf8(self.spec_server_name()),
                    encode_utf8(aud@),
                    encode_utf8(name@),
                    self.users()[name@].1,
                    iat,
                    (iat + spec_clamped(duration)) as u64,
                    sig,
                ),
            r.is_err() ==> match r.unwrap_err() {
                Error::UserNotFound(n) => !self.users().contains_key(name@) && n@ == name@,
                Error::LoginFailed => self.users().contains_key(name@) && argon2_verify_outcome(
                    self.users()[name@].0,
                    encode_utf8(pass@),
                ) == Some(false),
                Error::Password(PasswordError::Malformed) => self.users().contains_key(name@)
                    && argon2_verify_outcome(self.users()[name@].0, encode_utf8(pass@)).is_none(),
                Error::Token(te) => te == TokenError::InvalidDuration || te == TokenError::Backend,
                Error::Storage => true,
                _ => false,
            },
    {
        let user = match self.database.get_user_by_name(name) {
            Ok(u) => u,
            Err(Error::UserNotFound(n)) => {
                return Err(Error::UserNotFound(n));
            },
            Err(_) => {
                return Err(Error::Storage);
            },
        };
        let pass_b = pass.as_bytes_vec();
        match verify_password(user.pass_hash.as_str(), pass_b.as_slice()) {
            Ok(true) => {},
            Ok(false) => {
                return Err(Error::LoginFailed);
            },
            Err(e) => {
                return Err(Error::Password(e));
            },
        }
        let clamped: u64 = if duration > MAX_DURATION {
            MAX_DURATION
        } else {
            duration
        };
        let token = Token {
            iss: self.server_name.clone(),
            aud,
            sub: name.to_owned(),
            version: user.token_version,
        };
        match token.issue(&self.priv_key, self.alg, clamped) {
            Ok(t) => {
                proof {
                    let (iat0, sig0) = choose|iat: u64, sig: Seq<u8>|
                        iat + clamped <= u64::MAX && encode_utf8(t@) == #[trigger] spec_token_bytes(
                            self.alg,
                            encode_utf8(token.iss@),
                            encode_utf8(token.aud@),
                            encode_utf8(token.sub@),
                            token.version,
                            iat,
                            (iat + clamped) as u64,
                            sig,
                        ) && token_segments_good(
                            self.alg,
                            encode_utf8(token.iss@),
                            encode_utf8(token.aud@),
                            encode_utf8(token.sub@),
                            token.version,
                            iat,
                            (iat + clamped) as u64,
                            sig,
                        );
                    assert(clamped == spec_clamped(duration));
                    assert(iat0 + spec_clamped(duration) <= u64::MAX && encode_utf8(t@)
                        == spec_token_bytes(
                        self.spec_alg(),
                        encode_utf8(self.spec_server_name()),
                        encode_utf8(aud@),
                        encode_utf8(name@),
                        self.users()[name@].1,
                        iat0,
                        (iat0 + spec_clamped(duration)) as u64,
                        sig0,
                    ) && token_segments_good(
                        self.spec_alg(),
                        encode_utf8(self.spec_server_name()),
                        encode_utf8(aud@),
                        encode_utf8(name@),
                        self.users()[name@].1,
                        iat0,
                        (iat0 + spec_clamped(duration)) as u64,
                        sig0,
                    ));
                }
                Ok(t)
            },
            Err(e) => {
                proof {
                    assert(e == TokenError::InvalidDuration || e == TokenError::Backend);
                }
                Err(Error::Token(e))
            },
        }
    }

    /// Returns the name and current revocation counter stored under `name`,
    /// and nothing else: the password hash never leaves the server.
    pub fn get_user(&self, name: &str) -> (r: Result<GetUserResponse, Error>)
        ensures
            match r {
                Ok(res) => self.users().contains_key(name@) && res.name@ == name@
                    && res.token_version == self.users()[name@].1,
                Err(e) => match e {
                    Error::UserNotFound(n) => !self.users().contains_key(name@) && n@ == name@,
                    Error::Storage => true,
                    _ => false,
                },
            },
    {
        match self.database.get_user_by_name(name) {
            Ok(u) => Ok(GetUserResponse { name: u.name, token_version: u.token_version }),
            Err(Error::UserNotFound(n)) => Err(Error::UserNotFound(n)),
            Err(_) => Err(Error::Storage),
        }
    }

    /// Hands the verification-key material out verbatim.
    pub fn get_pub_key(&self) -> (r: String)
        ensures
            r@ == self.spec_pub_key(),
    {
        self.pub_key.clone()
    }

    /// Creates a record under `name`; `DuplicateName` exactly when one
    /// exists.
    pub fn insert_user(&mut self, name: &str, pass_hash: &str) -> (r: Result<(), Error>)
        ensures
            final(self).spec_alg() == old(self).spec_alg(),
            final(self).spec_server_name() == old(self).spec_server_name(),
            final(self).spec_pub_key() == old(self).spec_pub_key(),
            match r {
                Ok(()) => !old(self).users().contains_key(name@) && final(self).users() == old(
                    self,
                ).users().insert(name@, (pass_hash@, 0u32)),
                Err(e) => match e {
                    Error::DuplicateName(n) => old(self).users().contains_key(name@) && n@
                        == name@ && final(self).users() == old(self).users(),
                    Error::Storage => final(self).users() == old(self).users(),
                    _ => false,
                },
            },
    {
        self.database.insert_user(name, pass_hash)
    }

    /// Revokes every outstanding token of `name`, by adding exactly one to
    /// the stored revocation counter; tokens carrying the old counter fail
    /// their next validation round trip. On an unknown name this changes
    /// nothing and still reports success.
    pub fn revoke(&mut self, name: &str) -> (r: Result<(), Error>)
        ensures
            final(self).spec_alg() == old(self).spec_alg(),
            final(self).spec_server_name() == old(self).spec_server_name(),
            final(self).spec_pub_key() == old(self).spec_pub_key(),
            match r {
                Ok(()) => if old(self).users().contains_key(name@) {
                    old(self).users()[name@].1 < u32::MAX ==> final(self).users() == old(
                        self,
                    ).users().insert(
                        name@,
                        (old(self).users()[name@].0, (old(self).users()[name@].1 + 1) as u32),
                    )
                } else {
                    final(self).users() == old(self).users()
                },
                Err(e) => match e {
                    Error::Storage => final(self).users() == old(self).users(),
                    _ => false,
                },
            },
    {
        match self.database.increment_token(name) {
            Ok(()) => Ok(()),
            Err(_) => Err(Error::Storage),
        }
    }
}

/// Revocation: after the stored counter of a user moves up by one, a token
/// that embeds the counter current before the call no longer matches, so
/// the version check of validation rejects it.
pub proof fn lemma_revoked_token_rejected(
    before: Map<Seq<char>, (Seq<char>, u32)>,
    after: Map<Seq<char>, (Seq<char>, u32)>,
    name: Seq<char>,
    token_version: u32,
)
    requires
        before.contains_key(name),
        token_version == before[name].1,
        before[name].1 < u32::MAX,
        after == before.insert(name, (before[name].0, (before[name].1 + 1) as u32)),
    ensures
        after.contains_key(name),
        token_version != after[name].1,
{
}

/// Counting revocations: two revocations in sequence move the stored
/// counter up by exactly two; by induction, a run of calls that each see
/// the store the previous one left raises it by exactly the number of
/// calls, with none lost.
pub proof fn lemma_revocations_accumulate(
    m0: Map<Seq<char>, (Seq<char>, u32)>,
    m1: Map<Seq<char>, (Seq<char>, u32)>,
    m2: Map<Seq<char>, (Seq<char>, u32)>,
    name: Seq<char>,
)
    requires
        m0.contains_key(name),
        m0[name].1 + 2 <= u32::MAX,
        m1 == m0.insert(name, (m0[name].0, (m0[name].1 + 1) as u32)),
        m2 == m1.insert(name, (m1[name].0, (m1[name].1 + 1) as u32)),
    ensures
        m2[name].1 == m0[name].1 + 2,
{
}

} // verus!
