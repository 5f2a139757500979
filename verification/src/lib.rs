//! A minimal authentication service: a credential store, password hashing,
//! signed bearer tokens with version-based revocation, and the two-phase
//! validation protocol a client runs against the server.
//!
//! The crate root holds the wire messages the server and client exchange,
//! each with one canonical JSON form described by a spec function, and a
//! builder and strict parser verified against it.
pub mod client;
pub mod codec;
pub mod crypto;
pub mod database;
pub mod models;
pub mod server;

use vstd::prelude::*;
use vstd::string::StrSliceExecFns;
use vstd::utf8::{encode_utf8, valid_utf8};

use crate::codec::{
    dec_bytes, lemma_parse_dec, lemma_parse_u64_complete, lemma_scan_complete, lemma_scan_esc,
    match_lit, parse_u64, push_dec, push_escaped, push_slice, scan_string, spec_match_lit,
    spec_parse_u64, spec_scan_string, QUOTE,
};
use crate::crypto::{bytes_to_string, qesc};

verus! {

/// The login request body: audience, requested lifetime in seconds, user
/// name and password.
pub struct PostLoginRequest {
    pub aud: String,
    pub duration: u64,
    pub name: String,
    pub pass: String,
}

/// The login response body: the issued token.
pub struct PostLoginResponse {
    pub token: String,
}

/// The lookup response body: the user's name and current revocation
/// counter, and nothing more.
pub struct GetUserResponse {
    pub name: String,
    pub token_version: u32,
}

/// `{"aud":"`
pub open spec fn lit_req_aud() -> Seq<u8> {
    seq![0x7bu8, 0x22, 0x61, 0x75, 0x64, 0x22, 0x3a, 0x22]
}

/// `,"duration":`
pub open spec fn lit_req_duration() -> Seq<u8> {
    seq![0x2cu8, 0x22, 0x64, 0x75, 0x72, 0x61, 0x74, 0x69, 0x6f, 0x6e, 0x22, 0x3a]
}

/// `,"name":"`
pub open spec fn lit_req_name() -> Seq<u8> {
    seq![0x2cu8, 0x22, 0x6e, 0x61, 0x6d, 0x65, 0x22, 0x3a, 0x22]
}

/// `,"pass":"`
pub open spec fn lit_req_pass() -> Seq<u8> {
    seq![0x2cu8, 0x22, 0x70, 0x61, 0x73, 0x73, 0x22, 0x3a, 0x22]
}

/// `{"token":"`
pub open spec fn lit_resp_token() -> Seq<u8> {
    seq![0x7bu8, 0x22, 0x74, 0x6f, 0x6b, 0x65, 0x6e, 0x22, 0x3a, 0x22]
}

/// `{"name":"`
pub open spec fn lit_user_name() -> Seq<u8> {
    seq![0x7bu8, 0x22, 0x6e, 0x61, 0x6d, 0x65, 0x22, 0x3a, 0x22]
}

/// `,"token_version":`
pub open spec fn lit_user_version() -> Seq<u8> {
    seq![
        0x2cu8,
        0x22,
        0x74,
        0x6f,
        0x6b,
        0x65,
        0x6e,
        0x5f,
        0x76,
        0x65,
        0x72,
        0x73,
        0x69,
        0x6f,
        0x6e,
        0x22,
        0x3a,
    ]
}

/// `}`
pub open spec fn lit_obj_close() -> Seq<u8> {
    seq![0x7du8]
}

/// The canonical login request body.
pub open spec fn login_request_json(
    aud: Seq<u8>,
    duration: u64,
    name: Seq<u8>,
    pass: Seq<u8>,
) -> Seq<u8> {
    lit_req_aud() + qesc(aud) + lit_req_duration() + dec_bytes(duration as nat) + lit_req_name()
        + qesc(name) + lit_req_pass() + qesc(pass) + lit_obj_close()
}

/// What strictly parsing a login request body yields.
pub open spec fn spec_parse_login_request(b: Seq<u8>) -> Option<(Seq<u8>, u64, Seq<u8>, Seq<u8>)> {
    match spec_match_lit(b, 0, lit_req_aud()) {
        None => None,
        Some(i1) => match spec_scan_string(b, i1) {
            None => None,
            Some((aud, i2)) => match spec_match_lit(b, i2, lit_req_duration()) {
                None => None,
                Some(i3) => match spec_parse_u64(b, i3) {
                    None => None,
                    Some((duration, i4)) => match spec_match_lit(b, i4, lit_req_name()) {
                        None => None,
                        Some(i5) => match spec_scan_string(b, i5) {
                            None => None,
                            Some((name, i6)) => match spec_match_lit(b, i6, lit_req_pass()) {
                                None => None,
                                Some(i7) => match spec_scan_string(b, i7) {
                                    None => None,
                                    Some((pass, i8)) => match spec_match_lit(
                                        b,
                                        i8,
                                        lit_obj_close(),
                                    ) {
                                        None => None,
                                        Some(i9) => if i9 == b.len() {
                                            Some((aud, duration, name, pass))
                                        } else {
                                            None
                                        },
                                    },
                                },
                            },
                        },
                    },
                },
            },
        },
    }
}

/// Parsing a built login request yields the fields it was built from.
#[verifier::rlimit(100)]
#[verifier::spinoff_prover]
pub proof fn lemma_login_request_sound(aud: Seq<u8>, duration: u64, name: Seq<u8>, pass: Seq<u8>)
    ensures
        spec_parse_login_request(login_request_json(aud, duration, name, pass)) == Some(
            (aud, duration, name, pass),
        ),
{
    let built = login_request_json(aud, duration, name, pass);
    let o1 = lit_req_aud().len() as int;
    let o2 = o1 + qesc(aud).len();
    let o3 = o2 + lit_req_duration().len();
    let o4 = o3 + dec_bytes(duration as nat).len();
    let o5 = o4 + lit_req_name().len();
    let o6 = o5 + qesc(name).len();
    let o7 = o6 + lit_req_pass().len();
    let o8 = o7 + qesc(pass).len();
    assert(built.len() == o8 + 1);
    assert(built.subrange(0, o1) =~= lit_req_aud());
    assert(built.subrange(o1, o2) =~= qesc(aud));
    assert(built.subrange(o2, o3) =~= lit_req_duration());
    assert(built.subrange(o3, o4) =~= dec_bytes(duration as nat));
    assert(built.subrange(o4, o5) =~= lit_req_name());
    assert(built.subrange(o5, o6) =~= qesc(name));
    assert(built.subrange(o6, o7) =~= lit_req_pass());
    assert(built.subrange(o7, o8) =~= qesc(pass));
    assert(built.subrange(o8, o8 + 1) =~= lit_obj_close());
    assert(spec_match_lit(built, 0, lit_req_aud()) == Some(o1));
    lemma_scan_esc(built, o1, aud);
    assert(spec_match_lit(built, o2, lit_req_duration()) == Some(o3));
    assert(built[o4] == 0x2c) by {
        assert(built.subrange(o4, o5)[0] == built[o4]);
    }
    lemma_parse_dec(built, o3, duration);
    assert(spec_match_lit(built, o4, lit_req_name()) == Some(o5));
    lemma_scan_esc(built, o5, name);
    assert(spec_match_lit(built, o6, lit_req_pass()) == Some(o7));
    lemma_scan_esc(built, o7, pass);
    assert(spec_match_lit(built, o8, lit_obj_close()) == Some(o8 + 1));
}

/// Whatever parses as a login request is exactly the canonical build of the
/// fields it yields.
#[verifier::rlimit(100)]
#[verifier::spinoff_prover]
pub proof fn lemma_login_request_complete(b: Seq<u8>)
    requires
        spec_parse_login_request(b).is_some(),
    ensures
        ({
            let (aud, duration, name, pass) = spec_parse_login_request(b).unwrap();
            b == login_request_json(aud, duration, name, pass)
        }),
{
    let (aud, duration, name, pass) = spec_parse_login_request(b).unwrap();
    let i1 = spec_match_lit(b, 0, lit_req_aud()).unwrap();
    let i2 = spec_scan_string(b, i1).unwrap().1;
    let i3 = spec_match_lit(b, i2, lit_req_duration()).unwrap();
    let i4 = spec_parse_u64(b, i3).unwrap().1;
    let i5 = spec_match_lit(b, i4, lit_req_name()).unwrap();
    let i6 = spec_scan_string(b, i5).unwrap().1;
    let i7 = spec_match_lit(b, i6, lit_req_pass()).unwrap();
    let i8 = spec_scan_string(b, i7).unwrap().1;
    let i9 = spec_match_lit(b, i8, lit_obj_close()).unwrap();
    lemma_scan_complete(b, i1);
    lemma_parse_u64_complete(b, i3);
    lemma_scan_complete(b, i5);
    lemma_scan_complete(b, i7);
    assert(b =~= b.subrange(0, i1) + b.subrange(i1, i2) + b.subrange(i2, i3) + b.subrange(
        i3,
        i4,
    ) + b.subrange(i4, i5) + b.subrange(i5, i6) + b.subrange(i6, i7) + b.subrange(i7, i8)
        + b.subrange(i8, i9));
}

/// Builds the canonical login request body.
pub fn build_login_request(req: &PostLoginRequest) -> (r: Vec<u8>)
    ensures
        r@ == login_request_json(
            encode_utf8(req.aud@),
            req.duration,
            encode_utf8(req.name@),
            encode_utf8(req.pass@),
        ),
{
    let mut out: Vec<u8> = Vec::new();
    let l_aud = [0x7bu8, 0x22, 0x61, 0x75, 0x64, 0x22, 0x3a, 0x22];
    let l_dur = [0x2cu8, 0x22, 0x64, 0x75, 0x72, 0x61, 0x74, 0x69, 0x6f, 0x6e, 0x22, 0x3a];
    let l_name = [0x2cu8, 0x22, 0x6e, 0x61, 0x6d, 0x65, 0x22, 0x3a, 0x22];
    let l_pass = [0x2cu8, 0x22, 0x70, 0x61, 0x73, 0x73, 0x22, 0x3a, 0x22];
    proof {
        assert(l_aud@ =~= lit_req_aud());
        assert(l_dur@ =~= lit_req_duration());
        assert(l_name@ =~= lit_req_name());
        assert(l_pass@ =~= lit_req_pass());
    }
    let aud_b = req.aud.as_str().as_bytes_vec();
    let name_b = req.name.as_str().as_bytes_vec();
    let pass_b = req.pass.as_str().as_bytes_vec();
    push_slice(&mut out, l_aud.as_slice());
    push_escaped(&mut out, aud_b.as_slice());
    out.push(QUOTE);
    push_slice(&mut out, l_dur.as_slice());
    push_dec(&mut out, req.duration);
    push_slice(&mut out, l_name.as_slice());
    push_escaped(&mut out, name_b.as_slice());
    out.push(QUOTE);
    push_slice(&mut out, l_pass.as_slice());
    push_escaped(&mut out, pass_b.as_slice());
    out.push(QUOTE);
    out.push(0x7d);
    proof {
        assert(out@ =~= login_request_json(
            encode_utf8(req.aud@),
            req.duration,
            encode_utf8(req.name@),
            encode_utf8(req.pass@),
        ));
    }
    out
}

/// Parses a login request body; accepts exactly the canonical form with
/// well-formed text fields.
pub fn parse_login_request(b: &Vec<u8>) -> (r: Option<PostLoginRequest>)
    ensures
        match r {
            Some(req) => spec_parse_login_request(b@) == Some(
                (encode_utf8(req.aud@), req.duration, encode_utf8(req.name@), encode_utf8(
                    req.pass@,
                )),
            ),
            None => spec_parse_login_request(b@).is_none() || !(valid_utf8(
                spec_parse_login_request(b@).unwrap().0,
            ) && valid_utf8(spec_parse_login_request(b@).unwrap().2) && valid_utf8(
                spec_parse_login_request(b@).unwrap().3,
            )),
        },
{
    let l_aud = [0x7bu8, 0x22, 0x61, 0x75, 0x64, 0x22, 0x3a, 0x22];
    let l_dur = [0x2cu8, 0x22, 0x64, 0x75, 0x72, 0x61, 0x74, 0x69, 0x6f, 0x6e, 0x22, 0x3a];
    let l_name = [0x2cu8, 0x22, 0x6e, 0x61, 0x6d, 0x65, 0x22, 0x3a, 0x22];
    let l_pass = [0x2cu8, 0x22, 0x70, 0x61, 0x73, 0x73, 0x22, 0x3a, 0x22];
    let l_close = [0x7du8];
    proof {
        assert(l_aud@ =~= lit_req_aud());
        assert(l_dur@ =~= lit_req_duration());
        assert(l_name@ =~= lit_req_name());
        assert(l_pass@ =~= lit_req_pass());
        assert(l_close@ =~= lit_obj_close());
    }
    let i1 = match match_lit(b, 0, l_aud.as_slice()) {
        Some(i) => i,
        None => {
            return None;
        },
    };
    let (aud, i2) = match scan_string(b, i1) {
        Some(x) => x,
        None => {
            return None;
        },
    };
    let i3 = match match_lit(b, i2, l_dur.as_slice()) {
        Some(i) => i,
        None => {
            return None;
        },
    };
    let (duration, i4) = match parse_u64(b, i3) {
        Some(x) => x,
        None => {
            return None;
        },
    };
    let i5 = match match_lit(b, i4, l_name.as_slice()) {
        Some(i) => i,
        None => {
            return None;
        },
    };
    let (name, i6) = match scan_string(b, i5) {
        Some(x) => x,
        None => {
            return None;
        },
    };
    let i7 = match match_lit(b, i6, l_pass.as_slice()) {
        Some(i) => i,
        None => {
            return None;
        },
    };
    let (pass, i8) = match scan_string(b, i7) {
        Some(x) => x,
        None => {
            return None;
        },
    };
    let i9 = match match_lit(b, i8, l_close.as_slice()) {
        Some(i) => i,
        None => {
            return None;
        },
    };
    if i9 != b.len() {
        return None;
    }
    let aud_s = match bytes_to_string(aud.as_slice()) {
        Some(s) => s,
        None => {
            return None;
        },
    };
    let name_s = match bytes_to_string(name.as_slice()) {
        Some(s) => s,
        None => {
            return None;
        },
    };
    let pass_s = match bytes_to_string(pass.as_slice()) {
        Some(s) => s,
        None => {
            return None;
        },
    };
    Some(PostLoginRequest { aud: aud_s, duration, name: name_s, pass: pass_s })
}

/// The canonical login response body.
pub open spec fn login_response_json(token: Seq<u8>) -> Seq<u8> {
    lit_resp_token() + qesc(token) + lit_obj_close()
}

/// What strictly parsing a login response body yields.
pub open spec fn spec_parse_login_response(b: Seq<u8>) -> Option<Seq<u8>> {
    match spec_match_lit(b, 0, lit_resp_token()) {
        None => None,
        Some(i1) => match spec_scan_string(b, i1) {
            None => None,
            Some((token, i2)) => match spec_match_lit(b, i2, lit_obj_close()) {
                None => None,
                Some(i3) => if i3 == b.len() {
                    Some(token)
                } else {
                    None
                },
            },
        },
    }
}

/// Parsing a built login response yields its token; whatever parses is
/// exactly such a build.
pub proof fn lemma_login_response_round_trip(token: Seq<u8>, b: Seq<u8>)
    ensures
        spec_parse_login_response(login_response_json(token)) == Some(token),
        spec_parse_login_response(b) == Some(token) ==> b == login_response_json(token),
{
    let built = login_response_json(token);
    let o1 = lit_resp_token().len() as int;
    let o2 = o1 + qesc(token).len();
    assert(built.subrange(0, o1) =~= lit_resp_token());
    assert(built.subrange(o1, o2) =~= qesc(token));
    assert(built.subrange(o2, o2 + 1) =~= lit_obj_close());
    assert(spec_match_lit(built, 0, lit_resp_token()) == Some(o1));
    lemma_scan_esc(built, o1, token);
    assert(spec_match_lit(built, o2, lit_obj_close()) == Some(o2 + 1));
    if spec_parse_login_response(b) == Some(token) {
        let i1 = spec_match_lit(b, 0, lit_resp_token()).unwrap();
        let i2 = spec_scan_string(b, i1).unwrap().1;
        let i3 = spec_match_lit(b, i2, lit_obj_close()).unwrap();
        lemma_scan_complete(b, i1);
        assert(b =~= b.subrange(0, i1) + b.subrange(i1, i2) + b.subrange(i2, i3));
    }
}

/// Builds the canonical login response body.
pub fn build_login_response(resp: &PostLoginResponse) -> (r: Vec<u8>)
    ensures
        r@ == login_response_json(encode_utf8(resp.token@)),
{
    let mut out: Vec<u8> = Vec::new();
    let l_tok = [0x7bu8, 0x22, 0x74, 0x6f, 0x6b, 0x65, 0x6e, 0x22, 0x3a, 0x22];
    proof {
        assert(l_tok@ =~= lit_resp_token());
    }
    let tok_b = resp.token.as_str().as_bytes_vec();
    push_slice(&mut out, l_tok.as_slice());
    push_escaped(&mut out, tok_b.as_slice());
    out.push(QUOTE);
    out.push(0x7d);
    proof {
        assert(out@ =~= login_response_json(encode_utf8(resp.token@)));
    }
    out
}

/// Parses a login response body; accepts exactly the canonical form with a
/// well-formed token string.
pub fn parse_login_response(b: &Vec<u8>) -> (r: Option<PostLoginResponse>)
    ensures
        match r {
            Some(resp) => spec_parse_login_response(b@) == Some(encode_utf8(resp.token@)),
            None => spec_parse_login_response(b@).is_none() || !valid_utf8(
                spec_parse_login_response(b@).unwrap(),
            ),
        },
{
    let l_tok = [0x7bu8, 0x22, 0x74, 0x6f, 0x6b, 0x65, 0x6e, 0x22, 0x3a, 0x22];
    let l_close = [0x7du8];
    proof {
        assert(l_tok@ =~= lit_resp_token());
        assert(l_close@ =~= lit_obj_close());
    }
    let i1 = match match_lit(b, 0, l_tok.as_slice()) {
        Some(i) => i,
        None => {
            return None;
        },
    };
    let (token, i2) = match scan_string(b, i1) {
        Some(x) => x,
        None => {
            return None;
        },
    };
    let i3 = match match_lit(b, i2, l_close.as_slice()) {
        Some(i) => i,
        None => {
            return None;
        },
    };
    if i3 != b.len() {
        return None;
    }
    match bytes_to_string(token.as_slice()) {
        Some(s) => Some(PostLoginResponse { token: s }),
        None => None,
    }
}

/// The canonical user lookup response body.
pub open spec fn get_user_response_json(name: Seq<u8>, token_version: u32) -> Seq<u8> {
    lit_user_name() + qesc(name) + lit_user_version() + dec_bytes(token_version as nat)
        + lit_obj_close()
}

/// What strictly parsing a user lookup response yields.
pub open spec fn spec_parse_get_user_response(b: Seq<u8>) -> Option<(Seq<u8>, u32)> {
    match spec_match_lit(b, 0, lit_user_name()) {
        None => None,
        Some(i1) => match spec_scan_string(b, i1) {
            None => None,
            Some((name, i2)) => match spec_match_lit(b, i2, lit_user_version()) {
                None => None,
                Some(i3) => match spec_parse_u64(b, i3) {
                    None => None,
                    Some((ver, i4)) => if ver > u32::MAX as u64 {
                        None
                    } else {
                        match spec_match_lit(b, i4, lit_obj_close()) {
                            None => None,
                            Some(i5) => if i5 == b.len() {
                                Some((name, ver as u32))
                            } else {
                                None
                            },
                        }
                    },
                },
            },
        },
    }
}

/// Parsing a built lookup response yields its fields; whatever parses is
/// exactly such a build.
pub proof fn lemma_get_user_response_round_trip(name: Seq<u8>, token_version: u32, b: Seq<u8>)
    ensures
        spec_parse_get_user_response(get_user_response_json(name, token_version)) == Some(
            (name, token_version),
        ),
        spec_parse_get_user_response(b) == Some((name, token_version)) ==> b
            == get_user_response_json(name, token_version),
{
    let built = get_user_response_json(name, token_version);
    let o1 = lit_user_name().len() as int;
    let o2 = o1 + qesc(name).len();
    let o3 = o2 + lit_user_version().len();
    let o4 = o3 + dec_bytes(token_version as nat).len();
    assert(built.len() == o4 + 1);
    assert(built.subrange(0, o1) =~= lit_user_name());
    assert(built.subrange(o1, o2) =~= qesc(name));
    assert(built.subrange(o2, o3) =~= lit_user_version());
    assert(built.subrange(o3, o4) =~= dec_bytes(token_version as nat));
    assert(built.subrange(o4, o4 + 1) =~= lit_obj_close());
    assert(spec_match_lit(built, 0, lit_user_name()) == Some(o1));
    lemma_scan_esc(built, o1, name);
    assert(spec_match_lit(built, o2, lit_user_version()) == Some(o3));
    assert(built[o4] == 0x7d) by {
        assert(built.subrange(o4, o4 + 1)[0] == built[o4]);
    }
    lemma_parse_dec(built, o3, token_version as u64);
    assert(spec_match_lit(built, o4, lit_obj_close()) == Some(o4 + 1));
    if spec_parse_get_user_response(b) == Some((name, token_version)) {
        let i1 = spec_match_lit(b, 0, lit_user_name()).unwrap();
        let i2 = spec_scan_string(b, i1).unwrap().1;
        let i3 = spec_match_lit(b, i2, lit_user_version()).unwrap();
        let i4 = spec_parse_u64(b, i3).unwrap().1;
        let i5 = spec_match_lit(b, i4, lit_obj_close()).unwrap();
        lemma_scan_complete(b, i1);
        lemma_parse_u64_complete(b, i3);
        assert(spec_parse_u64(b, i3).unwrap().0 == token_version as u64);
        assert(b =~= b.subrange(0, i1) + b.subrange(i1, i2) + b.subrange(i2, i3) + b.subrange(
            i3,
            i4,
        ) + b.subrange(i4, i5));
    }
}

/// Builds the canonical user lookup response body.
pub fn build_get_user_response(resp: &GetUserResponse) -> (r: Vec<u8>)
    ensures
        r@ == get_user_response_json(encode_utf8(resp.name@), resp.token_version),
{
    let mut out: Vec<u8> = Vec::new();
    let l_name = [0x7bu8, 0x22, 0x6e, 0x61, 0x6d, 0x65, 0x22, 0x3a, 0x22];
    let l_ver = [
        0x2cu8,
        0x22,
        0x74,
        0x6f,
        0x6b,
        0x65,
        0x6e,
        0x5f,
        0x76,
        0x65,
        0x72,
        0x73,
        0x69,
        0x6f,
        0x6e,
        0x22,
        0x3a,
    ];
    proof {
        assert(l_name@ =~= lit_user_name());
        assert(l_ver@ =~= lit_user_version());
    }
    let name_b = resp.name.as_str().as_bytes_vec();
    push_slice(&mut out, l_name.as_slice());
    push_escaped(&mut out, name_b.as_slice());
    out.push(QUOTE);
    push_slice(&mut out, l_ver.as_slice());
    push_dec(&mut out, resp.token_version as u64);
    out.push(0x7d);
    proof {
        assert(out@ =~= get_user_response_json(encode_utf8(resp.name@), resp.token_version));
    }
    out
}

/// Parses a user lookup response; accepts exactly the canonical form with a
/// well-formed name.
pub fn parse_get_user_response(b: &Vec<u8>) -> (r: Option<GetUserResponse>)
    ensures
        match r {
            Some(resp) => spec_parse_get_user_response(b@) == Some(
                (encode_utf8(resp.name@), resp.token_version),
            ),
            None => spec_parse_get_user_response(b@).is_none() || !valid_utf8(
                spec_parse_get_user_response(b@).unwrap().0,
            ),
        },
{
    let l_name = [0x7bu8, 0x22, 0x6e, 0x61, 0x6d, 0x65, 0x22, 0x3a, 0x22];
    let l_ver = [
        0x2cu8,
        0x22,
        0x74,
        0x6f,
        0x6b,
        0x65,
        0x6e,
        0x5f,
        0x76,
        0x65,
        0x72,
        0x73,
        0x69,
        0x6f,
        0x6e,
        0x22,
        0x3a,
    ];
    let l_close = [0x7du8];
    proof {
        assert(l_name@ =~= lit_user_name());
        assert(l_ver@ =~= lit_user_version());
        assert(l_close@ =~= lit_obj_close());
    }
    let i1 = match match_lit(b, 0, l_name.as_slice()) {
        Some(i) => i,
        None => {
            return None;
        },
    };
    let (name, i2) = match scan_string(b, i1) {
        Some(x) => x,
        None => {
            return None;
        },
    };
    let i3 = match match_lit(b, i2, l_ver.as_slice()) {
        Some(i) => i,
        None => {
            return None;
        },
    };
    let (ver, i4) = match parse_u64(b, i3) {
        Some(x) => x,
        None => {
            return None;
        },
    };
    if ver > u32::MAX as u64 {
        return None;
    }
    let i5 = match match_lit(b, i4, l_close.as_slice()) {
        Some(i) => i,
        None => {
            return None;
        },
    };
    if i5 != b.len() {
        return None;
    }
    match bytes_to_string(name.as_slice()) {
        Some(s) => Some(GetUserResponse { name: s, token_version: ver as u32 }),
        None => None,
    }
}

} // verus!
