//! Pure cryptographic logic: password hashing and verification, and signed
//! token issuance and validation.
//!
//! A token is the compact three-part form `b64url(header) "." b64url(claims)
//! "." signature`. The header and claims are JSON objects in one canonical
//! shape, described byte for byte by the spec functions here; building and
//! parsing them is verified in both directions. Only the base64 step, the
//! signature itself and the password hash are supplied by outside crates,
//! behind trusted wrappers.
use vstd::prelude::*;
use vstd::string::StrSliceExecFns;
use vstd::utf8::{encode_utf8, valid_utf8};

use base64::Engine;
use rand::Rng;

use crate::codec::{
    find_byte, lemma_find_first, lemma_find_props, spec_find, sub_bytes,
};
use crate::codec::{
    dec_bytes, esc_bytes, lemma_parse_dec, lemma_parse_u64_complete, lemma_scan_complete,
    lemma_scan_esc, match_lit, parse_u64, push_dec, push_escaped, push_slice, scan_string,
    spec_match_lit, spec_parse_u64, spec_scan_string, BACKSLASH, QUOTE,
};

verus! {

/// `.`
pub const DOT: u8 = 0x2e;

/// An escaped JSON string value with its closing quote.
pub open spec fn qesc(v: Seq<u8>) -> Seq<u8> {
    esc_bytes(v) + seq![QUOTE]
}

/// `{"iss":"`
pub open spec fn lit_iss() -> Seq<u8> {
    seq![0x7bu8, 0x22, 0x69, 0x73, 0x73, 0x22, 0x3a, 0x22]
}

/// `,"aud":"`
pub open spec fn lit_aud() -> Seq<u8> {
    seq![0x2cu8, 0x22, 0x61, 0x75, 0x64, 0x22, 0x3a, 0x22]
}

/// `,"sub":"`
pub open spec fn lit_sub() -> Seq<u8> {
    seq![0x2cu8, 0x22, 0x73, 0x75, 0x62, 0x22, 0x3a, 0x22]
}

/// `,"version":`
pub open spec fn lit_ver() -> Seq<u8> {
    seq![0x2cu8, 0x22, 0x76, 0x65, 0x72, 0x73, 0x69, 0x6f, 0x6e, 0x22, 0x3a]
}

/// `,"iat":`
pub open spec fn lit_iat() -> Seq<u8> {
    seq![0x2cu8, 0x22, 0x69, 0x61, 0x74, 0x22, 0x3a]
}

/// `,"exp":`
pub open spec fn lit_exp() -> Seq<u8> {
    seq![0x2cu8, 0x22, 0x65, 0x78, 0x70, 0x22, 0x3a]
}

/// `}`
pub open spec fn lit_close() -> Seq<u8> {
    seq![0x7du8]
}

/// A token signing algorithm, as named in a token header.
#[derive(Clone, Copy, PartialEq, Eq, Structural, Debug)]
pub enum Alg {
    HS256,
    HS384,
    HS512,
    ES256,
    ES384,
    RS256,
    RS384,
    RS512,
    PS256,
    PS384,
    PS512,
    EdDSA,
}

/// The header name of an algorithm, as ASCII bytes.
pub open spec fn alg_name(a: Alg) -> Seq<u8> {
    match a {
        Alg::HS256 => seq![0x48u8, 0x53, 0x32, 0x35, 0x36],
        Alg::HS384 => seq![0x48u8, 0x53, 0x33, 0x38, 0x34],
        Alg::HS512 => seq![0x48u8, 0x53, 0x35, 0x31, 0x32],
        Alg::ES256 => seq![0x45u8, 0x53, 0x32, 0x35, 0x36],
        Alg::ES384 => seq![0x45u8, 0x53, 0x33, 0x38, 0x34],
        Alg::RS256 => seq![0x52u8, 0x53, 0x32, 0x35, 0x36],
        Alg::RS384 => seq![0x52u8, 0x53, 0x33, 0x38, 0x34],
        Alg::RS512 => seq![0x52u8, 0x53, 0x35, 0x31, 0x32],
        Alg::PS256 => seq![0x50u8, 0x53, 0x32, 0x35, 0x36],
        Alg::PS384 => seq![0x50u8, 0x53, 0x33, 0x38, 0x34],
        Alg::PS512 => seq![0x50u8, 0x53, 0x35, 0x31, 0x32],
        Alg::EdDSA => seq![0x45u8, 0x64, 0x44, 0x53, 0x41],
    }
}

/// Which algorithm a header name denotes.
pub open spec fn spec_alg_from(v: Seq<u8>) -> Option<Alg> {
    if v == alg_name(Alg::HS256) {
        Some(Alg::HS256)
    } else if v == alg_name(Alg::HS384) {
        Some(Alg::HS384)
    } else if v == alg_name(Alg::HS512) {
        Some(Alg::HS512)
    } else if v == alg_name(Alg::ES256) {
        Some(Alg::ES256)
    } else if v == alg_name(Alg::ES384) {
        Some(Alg::ES384)
    } else if v == alg_name(Alg::RS256) {
        Some(Alg::RS256)
    } else if v == alg_name(Alg::RS384) {
        Some(Alg::RS384)
    } else if v == alg_name(Alg::RS512) {
        Some(Alg::RS512)
    } else if v == alg_name(Alg::PS256) {
        Some(Alg::PS256)
    } else if v == alg_name(Alg::PS384) {
        Some(Alg::PS384)
    } else if v == alg_name(Alg::PS512) {
        Some(Alg::PS512)
    } else if v == alg_name(Alg::EdDSA) {
        Some(Alg::EdDSA)
    } else {
        None
    }
}

/// A header name maps back to the algorithm it was written for, and to
/// nothing else.
pub proof fn lemma_alg_name_round_trip(a: Alg)
    ensures
        spec_alg_from(alg_name(a)) == Some(a),
        forall|v: Seq<u8>| spec_alg_from(v) == Some(a) ==> v == alg_name(a),
{
}

/// The signing algorithms this crate's policy accepts: asymmetric ones only,
/// so the verification key can be handed out.
pub open spec fn spec_alg_allowed(a: Alg) -> bool {
    match a {
        Alg::ES256 | Alg::ES384 | Alg::RS256 | Alg::RS384
            | Alg::RS512 | Alg::PS256 | Alg::PS384 | Alg::PS512 => true,
        _ => false,
    }
}

/// Exec form of the allow-list test.
pub fn alg_allowed(a: Alg) -> (r: bool)
    ensures
        r == spec_alg_allowed(a),
{
    match a {
        Alg::ES256 | Alg::ES384 | Alg::RS256 | Alg::RS384
            | Alg::RS512 | Alg::PS256 | Alg::PS384 | Alg::PS512 => true,
        _ => false,
    }
}

/// Appends the header name of `a` to `out`.
fn push_alg_name(out: &mut Vec<u8>, a: Alg)
    ensures
        final(out)@ == old(out)@ + alg_name(a),
{
    let name: [u8; 5] = match a {
        Alg::HS256 => [0x48u8, 0x53, 0x32, 0x35, 0x36],
        Alg::HS384 => [0x48u8, 0x53, 0x33, 0x38, 0x34],
        Alg::HS512 => [0x48u8, 0x53, 0x35, 0x31, 0x32],
        Alg::ES256 => [0x45u8, 0x53, 0x32, 0x35, 0x36],
        Alg::ES384 => [0x45u8, 0x53, 0x33, 0x38, 0x34],
        Alg::RS256 => [0x52u8, 0x53, 0x32, 0x35, 0x36],
        Alg::RS384 => [0x52u8, 0x53, 0x33, 0x38, 0x34],
        Alg::RS512 => [0x52u8, 0x53, 0x35, 0x31, 0x32],
        Alg::PS256 => [0x50u8, 0x53, 0x32, 0x35, 0x36],
        Alg::PS384 => [0x50u8, 0x53, 0x33, 0x38, 0x34],
        Alg::PS512 => [0x50u8, 0x53, 0x35, 0x31, 0x32],
        Alg::EdDSA => [0x45u8, 0x64, 0x44, 0x53, 0x41],
    };
    proof {
        assert(name@ =~= alg_name(a));
    }
    push_slice(out, name.as_slice());
}

/// Whether `v` holds exactly the bytes of `lit`.
fn bytes_eq(v: &Vec<u8>, lit: &[u8]) -> (r: bool)
    ensures
        r == (v@ == lit@),
{
    if v.len() != lit.len() {
        return false;
    }
    let mut k: usize = 0;
    while k < v.len()
        invariant
            k <= v@.len(),
            v@.len() == lit@.len(),
            forall|m: int| 0 <= m < k ==> v@[m] == lit@[m],
        decreases v@.len() - k,
    {
        if v[k] != lit[k] {
            return false;
        }
        k += 1;
    }
    proof {
        assert(v@ =~= lit@);
    }
    true
}

/// Maps a header name to the algorithm it denotes.
pub fn alg_from_bytes(v: &Vec<u8>) -> (r: Option<Alg>)
    ensures
        r == spec_alg_from(v@),
{
    if bytes_eq(v, [0x48u8, 0x53, 0x32, 0x35, 0x36].as_slice()) {
        Some(Alg::HS256)
    } else if bytes_eq(v, [0x48u8, 0x53, 0x33, 0x38, 0x34].as_slice()) {
        Some(Alg::HS384)
    } else if bytes_eq(v, [0x48u8, 0x53, 0x35, 0x31, 0x32].as_slice()) {
        Some(Alg::HS512)
    } else if bytes_eq(v, [0x45u8, 0x53, 0x32, 0x35, 0x36].as_slice()) {
        Some(Alg::ES256)
    } else if bytes_eq(v, [0x45u8, 0x53, 0x33, 0x38, 0x34].as_slice()) {
        Some(Alg::ES384)
    } else if bytes_eq(v, [0x52u8, 0x53, 0x32, 0x35, 0x36].as_slice()) {
        Some(Alg::RS256)
    } else if bytes_eq(v, [0x52u8, 0x53, 0x33, 0x38, 0x34].as_slice()) {
        Some(Alg::RS384)
    } else if bytes_eq(v, [0x52u8, 0x53, 0x35, 0x31, 0x32].as_slice()) {
        Some(Alg::RS512)
    } else if bytes_eq(v, [0x50u8, 0x53, 0x32, 0x35, 0x36].as_slice()) {
        Some(Alg::PS256)
    } else if bytes_eq(v, [0x50u8, 0x53, 0x33, 0x38, 0x34].as_slice()) {
        Some(Alg::PS384)
    } else if bytes_eq(v, [0x50u8, 0x53, 0x35, 0x31, 0x32].as_slice()) {
        Some(Alg::PS512)
    } else if bytes_eq(v, [0x45u8, 0x64, 0x44, 0x53, 0x41].as_slice()) {
        Some(Alg::EdDSA)
    } else {
        None
    }
}

/// `{"typ":"JWT","alg":"`
pub open spec fn lit_hdr() -> Seq<u8> {
    seq![
        0x7bu8,
        0x22,
        0x74,
        0x79,
        0x70,
        0x22,
        0x3a,
        0x22,
        0x4a,
        0x57,
        0x54,
        0x22,
        0x2c,
        0x22,
        0x61,
        0x6c,
        0x67,
        0x22,
        0x3a,
        0x22,
    ]
}

/// The token header naming `name` as the signing algorithm.
pub open spec fn header_json_name(name: Seq<u8>) -> Seq<u8> {
    lit_hdr() + qesc(name) + lit_close()
}

/// The canonical token header for algorithm `a`.
pub open spec fn header_json(a: Alg) -> Seq<u8> {
    header_json_name(alg_name(a))
}

/// What parsing a token header yields: the algorithm name it carries.
pub open spec fn spec_parse_header(b: Seq<u8>) -> Option<Seq<u8>> {
    match spec_match_lit(b, 0, lit_hdr()) {
        None => None,
        Some(i1) => match spec_scan_string(b, i1) {
            None => None,
            Some((name, i2)) => match spec_match_lit(b, i2, lit_close()) {
                None => None,
                Some(i3) => if i3 == b.len() {
                    Some(name)
                } else {
                    None
                },
            },
        },
    }
}

/// Parsing a built header yields the name it was built with; whatever parses
/// is exactly such a build.
pub proof fn lemma_parse_header_round_trip(name: Seq<u8>, b: Seq<u8>)
    ensures
        spec_parse_header(header_json_name(name)) == Some(name),
        spec_parse_header(b) == Some(name) ==> b == header_json_name(name),
{
    let h = header_json_name(name);
    let o1 = lit_hdr().len() as int;
    let o2 = o1 + qesc(name).len();
    assert(h.subrange(0, o1) =~= lit_hdr());
    assert(h.subrange(o1, o2) =~= qesc(name));
    assert(h.subrange(o2, o2 + 1) =~= lit_close());
    assert(spec_match_lit(h, 0, lit_hdr()) == Some(o1));
    lemma_scan_esc(h, o1, name);
    assert(spec_match_lit(h, o2, lit_close()) == Some(o2 + 1));
    if spec_parse_header(b) == Some(name) {
        let i1 = spec_match_lit(b, 0, lit_hdr()).unwrap();
        let i2 = spec_scan_string(b, i1).unwrap().1;
        let i3 = spec_match_lit(b, i2, lit_close()).unwrap();
        lemma_scan_complete(b, i1);
        assert(b =~= b.subrange(0, i1) + b.subrange(i1, i2) + b.subrange(i2, i3));
    }
}

/// Builds the canonical token header for `a`.
pub fn build_header(a: Alg) -> (r: Vec<u8>)
    ensures
        r@ == header_json(a),
{
    let mut out: Vec<u8> = Vec::new();
    let l_hdr = [
        0x7bu8,
        0x22,
        0x74,
        0x79,
        0x70,
        0x22,
        0x3a,
        0x22,
        0x4a,
        0x57,
        0x54,
        0x22,
        0x2c,
        0x22,
        0x61,
        0x6c,
        0x67,
        0x22,
        0x3a,
        0x22,
    ];
    proof {
        assert(l_hdr@ =~= lit_hdr());
    }
    push_slice(&mut out, l_hdr.as_slice());
    push_alg_name(&mut out, a);
    out.push(QUOTE);
    out.push(0x7d);
    proof {
        assert(esc_bytes(alg_name(a)) =~= alg_name(a)) by {
            lemma_esc_ident(alg_name(a));
        }
        assert(out@ =~= header_json(a));
    }
    out
}

/// Escaping leaves a byte string without quotes, backslashes or control
/// bytes unchanged.
pub proof fn lemma_esc_ident(v: Seq<u8>)
    requires
        forall|k: int| 0 <= k < v.len() ==> #[trigger] v[k] != QUOTE && v[k] != BACKSLASH && v[k]
            >= 0x20,
    ensures
        esc_bytes(v) == v,
    decreases v.len(),
{
    if v.len() == 0 {
        assert(esc_bytes(v) =~= v);
    } else {
        assert(v[0] == v.first());
        lemma_esc_ident(v.drop_first());
        assert(esc_bytes(v) =~= seq![v[0]] + v.drop_first());
        assert(seq![v[0]] + v.drop_first() =~= v);
    }
}

/// Parses a token header, yielding the algorithm name it carries.
pub fn parse_header_name(b: &Vec<u8>) -> (r: Option<Vec<u8>>)
    ensures
        match r {
            Some(name) => spec_parse_header(b@) == Some(name@),
            None => spec_parse_header(b@).is_none(),
        },
{
    let l_hdr = [
        0x7bu8,
        0x22,
        0x74,
        0x79,
        0x70,
        0x22,
        0x3a,
        0x22,
        0x4a,
        0x57,
        0x54,
        0x22,
        0x2c,
        0x22,
        0x61,
        0x6c,
        0x67,
        0x22,
        0x3a,
        0x22,
    ];
    let l_close = [0x7du8];
    proof {
        assert(l_hdr@ =~= lit_hdr());
        assert(l_close@ =~= lit_close());
    }
    let i1 = match match_lit(b, 0, l_hdr.as_slice()) {
        Some(i) => i,
        None => {
            return None;
        },
    };
    let (name, i2) = match scan_string(b, i1) {
        Some(x) => x,
        None => {
            return None;
        },
    };
    let i3 = match match_lit(b, i2, l_close.as_slice()) {
        Some(i) => i,
        None => {
            return None;
        },
    };
    if i3 != b.len() {
        return None;
    }
    Some(name)
}

/// The one JSON form this crate gives a token's claim set.
pub open spec fn claims_json(
    iss: Seq<u8>,
    aud: Seq<u8>,
    sub: Seq<u8>,
    version: u32,
    iat: u64,
    exp: u64,
) -> Seq<u8> {
    lit_iss() + qesc(iss) + lit_aud() + qesc(aud) + lit_sub() + qesc(sub) + lit_ver() + dec_bytes(
        version as nat,
    ) + lit_iat() + dec_bytes(iat as nat) + lit_exp() + dec_bytes(exp as nat) + lit_close()
}

/// What parsing a claims object yields, strictly: only the canonical form is
/// accepted.
pub open spec fn spec_parse_claims(b: Seq<u8>) -> Option<(Seq<u8>, Seq<u8>, Seq<u8>, u32, u64, u64)> {
    match spec_match_lit(b, 0, lit_iss()) {
        None => None,
        Some(i1) => match spec_scan_string(b, i1) {
            None => None,
            Some((iss, i2)) => match spec_match_lit(b, i2, lit_aud()) {
                None => None,
                Some(i3) => match spec_scan_string(b, i3) {
                    None => None,
                    Some((aud, i4)) => match spec_match_lit(b, i4, lit_sub()) {
                        None => None,
                        Some(i5) => match spec_scan_string(b, i5) {
                            None => None,
                            Some((sub, i6)) => match spec_match_lit(b, i6, lit_ver()) {
                                None => None,
                                Some(i7) => match spec_parse_u64(b, i7) {
                                    None => None,
                                    Some((ver, i8)) => if ver > u32::MAX as u64 {
                                        None
                                    } else {
                                        match spec_match_lit(b, i8, lit_iat()) {
                                            None => None,
                                            Some(i9) => match spec_parse_u64(b, i9) {
                                                None => None,
                                                Some((iat, i10)) => match spec_match_lit(
                                                    b,
                                                    i10,
                                                    lit_exp(),
                                                ) {
                                                    None => None,
                                                    Some(i11) => match spec_parse_u64(b, i11) {
                                                        None => None,
                                                        Some((exp, i12)) => match spec_match_lit(
                                                            b,
                                                            i12,
                                                            lit_close(),
                                                        ) {
                                                            None => None,
                                                            Some(i13) => if i13 == b.len() {
                                                                Some(
                                                                    (
                                                                        iss,
                                                                        aud,
                                                                        sub,
                                                                        ver as u32,
                                                                        iat,
                                                                        exp,
                                                                    ),
                                                                )
                                                            } else {
                                                                None
                                                            },
                                                        },
                                                    },
                                                },
                                            },
                                        }
                                    },
                                },
                            },
                        },
                    },
                },
            },
        },
    }
}

/// Parsing a claims object built from given fields yields those fields back.
#[verifier::rlimit(100)]
#[verifier::spinoff_prover]
pub proof fn lemma_parse_claims_sound(
    iss: Seq<u8>,
    aud: Seq<u8>,
    sub: Seq<u8>,
    version: u32,
    iat: u64,
    exp: u64,
)
    ensures
        spec_parse_claims(claims_json(iss, aud, sub, version, iat, exp)) == Some(
            (iss, aud, sub, version, iat, exp),
        ),
{
    let b = claims_json(iss, aud, sub, version, iat, exp);
    let o1 = lit_iss().len() as int;
    let o2 = o1 + qesc(iss).len();
    let o3 = o2 + lit_aud().len();
    let o4 = o3 + qesc(aud).len();
    let o5 = o4 + lit_sub().len();
    let o6 = o5 + qesc(sub).len();
    let o7 = o6 + lit_ver().len();
    let o8 = o7 + dec_bytes(version as nat).len();
    let o9 = o8 + lit_iat().len();
    let o10 = o9 + dec_bytes(iat as nat).len();
    let o11 = o10 + lit_exp().len();
    let o12 = o11 + dec_bytes(exp as nat).len();
    assert(b.len() == o12 + 1);
    assert(b.subrange(0, o1) =~= lit_iss());
    assert(b.subrange(o1, o2) =~= qesc(iss));
    assert(b.subrange(o2, o3) =~= lit_aud());
    assert(b.subrange(o3, o4) =~= qesc(aud));
    assert(b.subrange(o4, o5) =~= lit_sub());
    assert(b.subrange(o5, o6) =~= qesc(sub));
    assert(b.subrange(o6, o7) =~= lit_ver());
    assert(b.subrange(o7, o8) =~= dec_bytes(version as nat));
    assert(b.subrange(o8, o9) =~= lit_iat());
    assert(b.subrange(o9, o10) =~= dec_bytes(iat as nat));
    assert(b.subrange(o10, o11) =~= lit_exp());
    assert(b.subrange(o11, o12) =~= dec_bytes(exp as nat));
    assert(b.subrange(o12, o12 + 1) =~= lit_close());
    assert(spec_match_lit(b, 0, lit_iss()) == Some(o1));
    lemma_scan_esc(b, o1, iss);
    assert(spec_match_lit(b, o2, lit_aud()) == Some(o3));
    lemma_scan_esc(b, o3, aud);
    assert(spec_match_lit(b, o4, lit_sub()) == Some(o5));
    lemma_scan_esc(b, o5, sub);
    assert(spec_match_lit(b, o6, lit_ver()) == Some(o7));
    assert(b[o8] == 0x2c) by {
        assert(b.subrange(o8, o9)[0] == b[o8]);
    }
    lemma_parse_dec(b, o7, version as u64);
    assert(spec_match_lit(b, o8, lit_iat()) == Some(o9));
    assert(b[o10] == 0x2c) by {
        assert(b.subrange(o10, o11)[0] == b[o10]);
    }
    lemma_parse_dec(b, o9, iat);
    assert(spec_match_lit(b, o10, lit_exp()) == Some(o11));
    assert(b[o12] == 0x7d) by {
        assert(b.subrange(o12, o12 + 1)[0] == b[o12]);
    }
    lemma_parse_dec(b, o11, exp);
    assert(spec_match_lit(b, o12, lit_close()) == Some(o12 + 1));
}

/// Whatever parses as a claims object is exactly the canonical form of the
/// fields it yields.
pub proof fn lemma_parse_claims_complete(b: Seq<u8>)
    requires
        spec_parse_claims(b).is_some(),
    ensures
        ({
            let (iss, aud, sub, ver, iat, exp) = spec_parse_claims(b).unwrap();
            b == claims_json(iss, aud, sub, ver, iat, exp)
        }),
{
    let (iss, aud, sub, ver, iat, exp) = spec_parse_claims(b).unwrap();
    let i1 = spec_match_lit(b, 0, lit_iss()).unwrap();
    let i2 = spec_scan_string(b, i1).unwrap().1;
    let i3 = spec_match_lit(b, i2, lit_aud()).unwrap();
    let i4 = spec_scan_string(b, i3).unwrap().1;
    let i5 = spec_match_lit(b, i4, lit_sub()).unwrap();
    let i6 = spec_scan_string(b, i5).unwrap().1;
    let i7 = spec_match_lit(b, i6, lit_ver()).unwrap();
    let i8 = spec_parse_u64(b, i7).unwrap().1;
    let i9 = spec_match_lit(b, i8, lit_iat()).unwrap();
    let i10 = spec_parse_u64(b, i9).unwrap().1;
    let i11 = spec_match_lit(b, i10, lit_exp()).unwrap();
    let i12 = spec_parse_u64(b, i11).unwrap().1;
    let i13 = spec_match_lit(b, i12, lit_close()).unwrap();
    lemma_scan_complete(b, i1);
    lemma_scan_complete(b, i3);
    lemma_scan_complete(b, i5);
    lemma_parse_u64_complete(b, i7);
    lemma_parse_u64_complete(b, i9);
    lemma_parse_u64_complete(b, i11);
    assert(spec_parse_u64(b, i7).unwrap().0 == ver as u64);
    assert(dec_bytes((ver as u64) as nat) == dec_bytes(ver as nat));
    assert(b =~= b.subrange(0, i1) + b.subrange(i1, i2) + b.subrange(i2, i3) + b.subrange(i3, i4)
        + b.subrange(i4, i5) + b.subrange(i5, i6) + b.subrange(i6, i7) + b.subrange(i7, i8)
        + b.subrange(i8, i9) + b.subrange(i9, i10) + b.subrange(i10, i11) + b.subrange(i11, i12)
        + b.subrange(i12, i13));
}

/// Builds the canonical claims object.
pub fn build_claims(iss: &[u8], aud: &[u8], sub: &[u8], version: u32, iat: u64, exp: u64) -> (r:
    Vec<u8>)
    ensures
        r@ == claims_json(iss@, aud@, sub@, version, iat, exp),
{
    let mut out: Vec<u8> = Vec::new();
    let l_iss = [0x7bu8, 0x22, 0x69, 0x73, 0x73, 0x22, 0x3a, 0x22];
    let l_aud = [0x2cu8, 0x22, 0x61, 0x75, 0x64, 0x22, 0x3a, 0x22];
    let l_sub = [0x2cu8, 0x22, 0x73, 0x75, 0x62, 0x22, 0x3a, 0x22];
    let l_ver = [0x2cu8, 0x22, 0x76, 0x65, 0x72, 0x73, 0x69, 0x6f, 0x6e, 0x22, 0x3a];
    let l_iat = [0x2cu8, 0x22, 0x69, 0x61, 0x74, 0x22, 0x3a];
    let l_exp = [0x2cu8, 0x22, 0x65, 0x78, 0x70, 0x22, 0x3a];
    proof {
        assert(l_iss@ =~= lit_iss());
        assert(l_aud@ =~= lit_aud());
        assert(l_sub@ =~= lit_sub());
        assert(l_ver@ =~= lit_ver());
        assert(l_iat@ =~= lit_iat());
        assert(l_exp@ =~= lit_exp());
    }
    push_slice(&mut out, l_iss.as_slice());
    push_escaped(&mut out, iss);
    out.push(QUOTE);
    push_slice(&mut out, l_aud.as_slice());
    push_escaped(&mut out, aud);
    out.push(QUOTE);
    push_slice(&mut out, l_sub.as_slice());
    push_escaped(&mut out, sub);
    out.push(QUOTE);
    push_slice(&mut out, l_ver.as_slice());
    push_dec(&mut out, version as u64);
    push_slice(&mut out, l_iat.as_slice());
    push_dec(&mut out, iat);
    push_slice(&mut out, l_exp.as_slice());
    push_dec(&mut out, exp);
    out.push(0x7d);
    proof {
        assert(out@ =~= claims_json(iss@, aud@, sub@, version, iat, exp));
    }
    out
}

/// Parses a claims object; accepts exactly the canonical form.
pub fn parse_claims(b: &Vec<u8>) -> (r: Option<(Vec<u8>, Vec<u8>, Vec<u8>, u32, u64, u64)>)
    ensures
        match r {
            Some((iss, aud, sub, ver, iat, exp)) => spec_parse_claims(b@) == Some(
                (iss@, aud@, sub@, ver, iat, exp),
            ),
            None => spec_parse_claims(b@).is_none(),
        },
{
    let l_iss = [0x7bu8, 0x22, 0x69, 0x73, 0x73, 0x22, 0x3a, 0x22];
    let l_aud = [0x2cu8, 0x22, 0x61, 0x75, 0x64, 0x22, 0x3a, 0x22];
    let l_sub = [0x2cu8, 0x22, 0x73, 0x75, 0x62, 0x22, 0x3a, 0x22];
    let l_ver = [0x2cu8, 0x22, 0x76, 0x65, 0x72, 0x73, 0x69, 0x6f, 0x6e, 0x22, 0x3a];
    let l_iat = [0x2cu8, 0x22, 0x69, 0x61, 0x74, 0x22, 0x3a];
    let l_exp = [0x2cu8, 0x22, 0x65, 0x78, 0x70, 0x22, 0x3a];
    let l_close = [0x7du8];
    proof {
        assert(l_iss@ =~= lit_iss());
        assert(l_aud@ =~= lit_aud());
        assert(l_sub@ =~= lit_sub());
        assert(l_ver@ =~= lit_ver());
        assert(l_iat@ =~= lit_iat());
        assert(l_exp@ =~= lit_exp());
        assert(l_close@ =~= lit_close());
    }
    let i1 = match match_lit(b, 0, l_iss.as_slice()) {
        Some(i) => i,
        None => {
            return None;
        },
    };
    let (iss, i2) = match scan_string(b, i1) {
        Some(x) => x,
        None => {
            return None;
        },
    };
    let i3 = match match_lit(b, i2, l_aud.as_slice()) {
        Some(i) => i,
        None => {
            return None;
        },
    };
    let (aud, i4) = match scan_string(b, i3) {
        Some(x) => x,
        None => {
            return None;
        },
    };
    let i5 = match match_lit(b, i4, l_sub.as_slice()) {
        Some(i) => i,
        None => {
            return None;
        },
    };
    let (sub, i6) = match scan_string(b, i5) {
        Some(x) => x,
        None => {
            return None;
        },
    };
    let i7 = match match_lit(b, i6, l_ver.as_slice()) {
        Some(i) => i,
        None => {
            return None;
        },
    };
    let (ver, i8) = match parse_u64(b, i7) {
        Some(x) => x,
        None => {
            return None;
        },
    };
    if ver > u32::MAX as u64 {
        return None;
    }
    let i9 = match match_lit(b, i8, l_iat.as_slice()) {
        Some(i) => i,
        None => {
            return None;
        },
    };
    let (iat, i10) = match parse_u64(b, i9) {
        Some(x) => x,
        None => {
            return None;
        },
    };
    let i11 = match match_lit(b, i10, l_exp.as_slice()) {
        Some(i) => i,
        None => {
            return None;
        },
    };
    let (exp, i12) = match parse_u64(b, i11) {
        Some(x) => x,
        None => {
            return None;
        },
    };
    let i13 = match match_lit(b, i12, l_close.as_slice()) {
        Some(i) => i,
        None => {
            return None;
        },
    };
    if i13 != b.len() {
        return None;
    }
    Some((iss, aud, sub, ver as u32, iat, exp))
}

#[verifier::external_type_specification]
#[verifier::external_body]
pub struct ExEncodingKey(jsonwebtoken::EncodingKey);

#[verifier::external_type_specification]
#[verifier::external_body]
pub struct ExDecodingKey(jsonwebtoken::DecodingKey);

#[verifier::external_type_specification]
#[verifier::external_body]
pub struct ExJwtAlg(jsonwebtoken::Algorithm);

/// The unpadded url-safe base64 form of `b`.
pub uninterp spec fn b64url_encoding(b: Seq<u8>) -> Seq<u8>;

/// What unpadded url-safe base64 decoding of `b` yields.
pub uninterp spec fn b64url_decoding(b: Seq<u8>) -> Option<Seq<u8>>;

/// Relies on base64's `URL_SAFE_NO_PAD` engine: `encode` writes only the
/// url-safe alphabet (`A..Z a..z 0..9 - _`, so never `.`), and `decode`
/// inverts it.
#[verifier::external_body]
fn b64url_encode(b: &[u8]) -> (r: Vec<u8>)
    ensures
        r@ == b64url_encoding(b@),
        b64url_decoding(r@) == Some(b@),
        forall|k: int| 0 <= k < r@.len() ==> r@[k] != DOT,
{
    base64::engine::general_purpose::URL_SAFE_NO_PAD.encode(b).into_bytes()
}

/// Relies on base64's `URL_SAFE_NO_PAD` engine: `decode` is a function of its
/// input alone.
#[verifier::external_body]
fn b64url_decode(b: &[u8]) -> (r: Option<Vec<u8>>)
    ensures
        match r {
            Some(v) => b64url_decoding(b@) == Some(v@),
            None => b64url_decoding(b@).is_none(),
        },
{
    base64::engine::general_purpose::URL_SAFE_NO_PAD.decode(b).ok()
}

/// Relies on `String::from_utf8`: accepts exactly valid UTF-8, and returns
/// the string those bytes spell.
#[verifier::external_body]
pub(crate) fn bytes_to_string(v: &[u8]) -> (r: Option<String>)
    ensures
        match r {
            Some(s) => valid_utf8(v@) && encode_utf8(s@) == v@,
            None => !valid_utf8(v@),
        },
{
    String::from_utf8(v.to_vec()).ok()
}

/// Relies on `jsonwebtoken::Algorithm`: names the same algorithm ours does.
#[verifier::external_body]
fn to_jwt_alg(a: Alg) -> jsonwebtoken::Algorithm {
    match a {
        Alg::HS256 => jsonwebtoken::Algorithm::HS256,
        Alg::HS384 => jsonwebtoken::Algorithm::HS384,
        Alg::HS512 => jsonwebtoken::Algorithm::HS512,
        Alg::ES256 => jsonwebtoken::Algorithm::ES256,
        Alg::ES384 => jsonwebtoken::Algorithm::ES384,
        Alg::RS256 => jsonwebtoken::Algorithm::RS256,
        Alg::RS384 => jsonwebtoken::Algorithm::RS384,
        Alg::RS512 => jsonwebtoken::Algorithm::RS512,
        Alg::PS256 => jsonwebtoken::Algorithm::PS256,
        Alg::PS384 => jsonwebtoken::Algorithm::PS384,
        Alg::PS512 => jsonwebtoken::Algorithm::PS512,
        Alg::EdDSA => jsonwebtoken::Algorithm::EdDSA,
    }
}

/// Relies on `jsonwebtoken::crypto::sign`: the signature comes back in
/// unpadded url-safe base64, which never holds a `.`. Nothing more is
/// assumed: for the EC algorithms the signature draws randomness.
#[verifier::external_body]
fn sign_bytes(message: &[u8], key: &jsonwebtoken::EncodingKey, alg: Alg) -> (r: Option<
    String,
>)
    ensures
        match r {
            Some(s) => forall|k: int|
                0 <= k < encode_utf8(s@).len() ==> encode_utf8(s@)[k] != DOT,
            None => true,
        },
{
    jsonwebtoken::crypto::sign(message, key, to_jwt_alg(alg)).ok()
}

/// Relies on `jsonwebtoken::crypto::verify`: whether the signature matches
/// the message under the key. Nothing is assumed of the answer.
#[verifier::external_body]
fn verify_bytes(
    sig: &str,
    message: &[u8],
    key: &jsonwebtoken::DecodingKey,
    alg: Alg,
) -> Option<bool> {
    jsonwebtoken::crypto::verify(sig, message, key, to_jwt_alg(alg)).ok()
}

/// Relies on `jsonwebtoken::EncodingKey::from_rsa_pem`.
#[verifier::external_body]
pub fn encoding_key_from_rsa_pem(pem: &[u8]) -> Option<jsonwebtoken::EncodingKey> {
    jsonwebtoken::EncodingKey::from_rsa_pem(pem).ok()
}

/// Relies on `jsonwebtoken::EncodingKey::from_ec_pem`.
#[verifier::external_body]
pub fn encoding_key_from_ec_pem(pem: &[u8]) -> Option<jsonwebtoken::EncodingKey> {
    jsonwebtoken::EncodingKey::from_ec_pem(pem).ok()
}

/// Relies on `jsonwebtoken::DecodingKey::from_rsa_pem`.
#[verifier::external_body]
pub fn decoding_key_from_rsa_pem(pem: &[u8]) -> Option<jsonwebtoken::DecodingKey> {
    jsonwebtoken::DecodingKey::from_rsa_pem(pem).ok()
}

/// Relies on `jsonwebtoken::DecodingKey::from_ec_pem`.
#[verifier::external_body]
pub fn decoding_key_from_ec_pem(pem: &[u8]) -> Option<jsonwebtoken::DecodingKey> {
    jsonwebtoken::DecodingKey::from_ec_pem(pem).ok()
}

/// Relies on `std::time::SystemTime::now`, `duration_since` against
/// `UNIX_EPOCH` and `Duration::as_secs`: seconds since the epoch, or nothing
/// when the clock reads earlier than the epoch. Nothing is assumed of the
/// value.
#[verifier::external_body]
fn now_secs() -> Option<u64> {
    std::time::SystemTime::now().duration_since(std::time::UNIX_EPOCH).ok().map(|d| d.as_secs())
}

/// Relies on `rand::thread_rng` / `Rng::fill`: fills the buffer with random
/// bytes. Nothing is assumed of the values drawn.
#[verifier::external_body]
fn random_salt() -> (r: Vec<u8>)
    ensures
        r@.len() == 32,
{
    let mut salt = [0u8; 32];
    rand::thread_rng().fill(&mut salt[..]);
    salt.to_vec()
}

/// The encoded hash that argon2 gives `pass` under `salt`, with the crate's
/// default configuration.
pub uninterp spec fn argon2_encoded(pass: Seq<u8>, salt: Seq<u8>) -> Seq<char>;

/// What argon2's verification of `encoded` against `pass` answers: whether
/// they match, or nothing when `encoded` is malformed.
pub uninterp spec fn argon2_verify_outcome(encoded: Seq<char>, pass: Seq<u8>) -> Option<bool>;

/// Relies on `argon2::hash_encoded` with the crate's default configuration:
/// the encoded result is a function of password and salt alone, and
/// `argon2::verify_encoded` recomputes exactly that hash from it, so it
/// accepts the same password.
#[verifier::external_body]
fn argon2_hash_encoded(pass: &[u8], salt: &[u8]) -> (r: Option<String>)
    ensures
        match r {
            Some(s) => s@ == argon2_encoded(pass@, salt@) && argon2_verify_outcome(s@, pass@)
                == Some(true),
            None => true,
        },
{
    argon2::hash_encoded(pass, salt, &argon2::Config::default()).ok()
}

/// Relies on `argon2::verify_encoded`: a function of the encoded string and
/// the password alone; it errors exactly on a malformed encoded string.
#[verifier::external_body]
fn argon2_verify(encoded: &str, pass: &[u8]) -> (r: Option<bool>)
    ensures
        match r {
            Some(b) => argon2_verify_outcome(encoded@, pass@) == Some(b),
            None => argon2_verify_outcome(encoded@, pass@).is_none(),
        },
{
    argon2::verify_encoded(encoded, pass).ok()
}

/// How password handling can fail.
#[derive(Clone, Copy, PartialEq, Eq, Structural, Debug)]
pub enum PasswordError {
    /// The encoded hash string is not in argon2's format.
    Malformed,
    /// The hashing backend refused the input.
    Backend,
}

/// Hashes a password under a fresh random 256-bit salt; the result is a
/// self-describing encoded string that `verify_password` accepts for the
/// same password.
pub fn encode_password(pass: &[u8]) -> (r: Result<String, PasswordError>)
    ensures
        match r {
            Ok(s) => argon2_verify_outcome(s@, pass@) == Some(true) && (exists|salt: Seq<u8>|
                salt.len() == 32 && s@ == argon2_encoded(pass@, salt)),
            Err(e) => e == PasswordError::Backend,
        },
{
    let salt = random_salt();
    match argon2_hash_encoded(pass, salt.as_slice()) {
        Some(s) => {
            proof {
                assert(salt@.len() == 32 && s@ == argon2_encoded(pass@, salt@));
            }
            Ok(s)
        },
        None => Err(PasswordError::Backend),
    }
}

/// Checks a password against an encoded hash; errors only on a malformed
/// encoded string, never on a mere mismatch.
pub fn verify_password(encoded: &str, pass: &[u8]) -> (r: Result<bool, PasswordError>)
    ensures
        match r {
            Ok(b) => argon2_verify_outcome(encoded@, pass@) == Some(b),
            Err(e) => e == PasswordError::Malformed && argon2_verify_outcome(
                encoded@,
                pass@,
            ).is_none(),
        },
{
    match argon2_verify(encoded, pass) {
        Some(b) => Ok(b),
        None => Err(PasswordError::Malformed),
    }
}

/// How token issuance or validation can fail.
#[derive(Clone, Copy, PartialEq, Eq, Structural, Debug)]
pub enum TokenError {
    /// The clock reads before the epoch, or `iat + duration` overflows.
    InvalidDuration,
    /// The token is not in the three-part form with canonical JSON inside.
    Malformed,
    /// The token's header names an algorithm outside the policy.
    AlgorithmNotAllowed,
    /// The signature does not match the message under the key.
    BadSignature,
    /// The token's expiry lies before the time of the check.
    Expired,
    /// The token's issuer is not the expected one.
    WrongIssuer,
    /// The token's audience is not the expected one.
    WrongAudience,
    /// The signing backend failed.
    Backend,
}

/// The claims a token asserts, without its timestamps.
pub struct Token {
    pub iss: String,
    pub aud: String,
    pub sub: String,
    pub version: u32,
}

/// What a validator expects of a token: the one allowed algorithm and the
/// exact issuer and audience, held as UTF-8 bytes.
pub struct Validation {
    pub alg: Alg,
    pub iss: Vec<u8>,
    pub aud: Vec<u8>,
}

/// Builds the expectation a validator checks tokens against.
pub fn make_validation(alg: Alg, aud: String, iss: String) -> (r: Validation)
    ensures
        r.alg == alg,
        r.iss@ == encode_utf8(iss@),
        r.aud@ == encode_utf8(aud@),
{
    Validation { alg, iss: iss.as_str().as_bytes_vec(), aud: aud.as_str().as_bytes_vec() }
}

/// The byte form of a whole token: two base64 segments and a signature,
/// joined by dots.
pub open spec fn spec_token_bytes(
    alg: Alg,
    iss: Seq<u8>,
    aud: Seq<u8>,
    sub: Seq<u8>,
    version: u32,
    iat: u64,
    exp: u64,
    sig: Seq<u8>,
) -> Seq<u8> {
    b64url_encoding(header_json(alg)) + seq![DOT] + b64url_encoding(
        claims_json(iss, aud, sub, version, iat, exp),
    ) + seq![DOT] + sig
}

/// What the base64 wrappers guarantee of a token's three segments as issue
/// assembles them: each segment decodes back to the JSON it encodes, and no
/// segment holds a `.`, so the token splits where it was joined. Together
/// with `lemma_fresh_token_validates` this lets a caller of `issue` conclude
/// that the token it got will pass validation under a matching policy while
/// it is unexpired, as far as the signature check answers true.
pub open spec fn token_segments_good(
    alg: Alg,
    iss: Seq<u8>,
    aud: Seq<u8>,
    sub: Seq<u8>,
    version: u32,
    iat: u64,
    exp: u64,
    sig: Seq<u8>,
) -> bool {
    &&& b64url_decoding(b64url_encoding(header_json(alg))) == Some(header_json(alg))
    &&& b64url_decoding(b64url_encoding(claims_json(iss, aud, sub, version, iat, exp))) == Some(
        claims_json(iss, aud, sub, version, iat, exp),
    )
    &&& forall|k: int|
        0 <= k < b64url_encoding(header_json(alg)).len() ==> b64url_encoding(header_json(alg))[k]
            != DOT
    &&& forall|k: int|
        0 <= k < b64url_encoding(claims_json(iss, aud, sub, version, iat, exp)).len()
            ==> b64url_encoding(claims_json(iss, aud, sub, version, iat, exp))[k] != DOT
    &&& forall|k: int| 0 <= k < sig.len() ==> sig[k] != DOT
}

/// The whole validation decision, given the time of the check and the
/// signature check's answer: every reject names its reason, and an accepted
/// token yields exactly the claims its canonical JSON carries.
pub open spec fn spec_validate(
    b: Seq<u8>,
    alg: Alg,
    iss: Seq<u8>,
    aud: Seq<u8>,
    now: u64,
    sig_ok: bool,
) -> Result<(Seq<u8>, Seq<u8>, Seq<u8>, u32, u64, u64), TokenError> {
    match spec_find(b, 0, DOT) {
        None => Err(TokenError::Malformed),
        Some(d1) => match spec_find(b, d1 + 1, DOT) {
            None => Err(TokenError::Malformed),
            Some(d2) => if spec_find(b, d2 + 1, DOT).is_some() {
                Err(TokenError::Malformed)
            } else {
                match b64url_decoding(b.subrange(0, d1)) {
                    None => Err(TokenError::Malformed),
                    Some(hb) => match spec_parse_header(hb) {
                        None => Err(TokenError::Malformed),
                        Some(name) => match spec_alg_from(name) {
                            None => Err(TokenError::AlgorithmNotAllowed),
                            Some(talg) => if talg != alg {
                                Err(TokenError::AlgorithmNotAllowed)
                            } else if !sig_ok {
                                Err(TokenError::BadSignature)
                            } else {
                                match b64url_decoding(b.subrange(d1 + 1, d2)) {
                                    None => Err(TokenError::Malformed),
                                    Some(cb) => match spec_parse_claims(cb) {
                                        None => Err(TokenError::Malformed),
                                        Some((tiss, taud, tsub, ver, iat, exp)) => if !valid_utf8(
                                            tiss,
                                        ) || !valid_utf8(taud) || !valid_utf8(tsub) {
                                            Err(TokenError::Malformed)
                                        } else if now > exp {
                                            Err(TokenError::Expired)
                                        } else if tiss != iss {
                                            Err(TokenError::WrongIssuer)
                                        } else if taud != aud {
                                            Err(TokenError::WrongAudience)
                                        } else {
                                            Ok((tiss, taud, tsub, ver, iat, exp))
                                        },
                                    },
                                }
                            },
                        },
                    },
                }
            },
        },
    }
}

/// Whether an exec validation result and a spec validation outcome agree.
pub open spec fn token_result_matches(
    r: Result<Token, TokenError>,
    s: Result<(Seq<u8>, Seq<u8>, Seq<u8>, u32, u64, u64), TokenError>,
) -> bool {
    match (r, s) {
        (Ok(t), Ok((tiss, taud, tsub, ver, _iat, _exp))) => encode_utf8(t.iss@) == tiss
            && encode_utf8(t.aud@) == taud && encode_utf8(t.sub@) == tsub && t.version == ver,
        (Err(e1), Err(e2)) => e1 == e2,
        _ => false,
    }
}

/// Whether `r` agrees with the validation outcome at `now` for one of the
/// two possible signature answers.
pub open spec fn validate_matches_at(
    r: Result<Token, TokenError>,
    b: Seq<u8>,
    alg: Alg,
    iss: Seq<u8>,
    aud: Seq<u8>,
    now: u64,
) -> bool {
    token_result_matches(r, spec_validate(b, alg, iss, aud, now, true)) || token_result_matches(
        r,
        spec_validate(b, alg, iss, aud, now, false),
    )
}

/// A freshly issued token validates: if the two base64 segments of a
/// three-part token decode to the canonical header for the expected
/// algorithm and to canonical claims with the expected issuer and audience,
/// the signature holds, and the expiry has not passed, validation yields
/// exactly those claims.
pub proof fn lemma_fresh_token_validates(
    alg: Alg,
    iss: Seq<u8>,
    aud: Seq<u8>,
    sub: Seq<u8>,
    version: u32,
    iat: u64,
    exp: u64,
    hseg: Seq<u8>,
    cseg: Seq<u8>,
    sig: Seq<u8>,
    now: u64,
)
    requires
        b64url_decoding(hseg) == Some(header_json(alg)),
        b64url_decoding(cseg) == Some(claims_json(iss, aud, sub, version, iat, exp)),
        forall|k: int| 0 <= k < hseg.len() ==> hseg[k] != DOT,
        forall|k: int| 0 <= k < cseg.len() ==> cseg[k] != DOT,
        forall|k: int| 0 <= k < sig.len() ==> sig[k] != DOT,
        valid_utf8(iss),
        valid_utf8(aud),
        valid_utf8(sub),
        now <= exp,
    ensures
        spec_validate(hseg + seq![DOT] + cseg + seq![DOT] + sig, alg, iss, aud, now, true) == Ok::<
            _,
            TokenError,
        >((iss, aud, sub, version, iat, exp)),
{
    let b = hseg + seq![DOT] + cseg + seq![DOT] + sig;
    let d1 = hseg.len() as int;
    let d2 = d1 + 1 + cseg.len();
    assert(b[d1] == DOT && b[d2] == DOT);
    assert forall|k: int| 0 <= k < d1 implies b[k] != DOT by {
        assert(b[k] == hseg[k]);
    }
    assert forall|k: int| d1 + 1 <= k < d2 implies b[k] != DOT by {
        assert(b[k] == cseg[k - (d1 + 1)]);
    }
    assert forall|k: int| d2 + 1 <= k < b.len() implies b[k] != DOT by {
        assert(b[k] == sig[k - (d2 + 1)]);
    }
    lemma_find_first(b, 0, d1, DOT);
    lemma_find_first(b, d1 + 1, d2, DOT);
    lemma_find_props(b, d2 + 1, DOT);
    assert(spec_find(b, d2 + 1, DOT).is_none()) by {
        if spec_find(b, d2 + 1, DOT).is_some() {
            let j = spec_find(b, d2 + 1, DOT).unwrap();
            assert(b[j] != DOT);
        }
    }
    assert(b.subrange(0, d1) =~= hseg);
    assert(b.subrange(d1 + 1, d2) =~= cseg);
    lemma_parse_header_round_trip(alg_name(alg), Seq::<u8>::empty());
    lemma_alg_name_round_trip(alg);
    lemma_parse_claims_sound(iss, aud, sub, version, iat, exp);
}

/// A token reported by a successful issue or login validates: its bytes are
/// the canonical three-part form for the issuer, audience, subject and
/// counter it was built from, so validation under the matching policy, with
/// a true signature answer and at any time up to the expiry, accepts it and
/// yields exactly those claims.
pub proof fn lemma_issued_for_policy_validates(
    alg: Alg,
    iss: Seq<char>,
    aud: Seq<char>,
    sub: Seq<char>,
    version: u32,
    iat: u64,
    exp: u64,
    sig: Seq<u8>,
    now: u64,
)
    requires
        token_segments_good(
            alg,
            encode_utf8(iss),
            encode_utf8(aud),
            encode_utf8(sub),
            version,
            iat,
            exp,
            sig,
        ),
        now <= exp,
    ensures
        spec_validate(
            spec_token_bytes(
                alg,
                encode_utf8(iss),
                encode_utf8(aud),
                encode_utf8(sub),
                version,
                iat,
                exp,
                sig,
            ),
            alg,
            encode_utf8(iss),
            encode_utf8(aud),
            now,
            true,
        ) == Ok::<_, TokenError>(
            (encode_utf8(iss), encode_utf8(aud), encode_utf8(sub), version, iat, exp),
        ),
{
    broadcast use vstd::utf8::encode_utf8_valid_utf8;

    lemma_fresh_token_validates(
        alg,
        encode_utf8(iss),
        encode_utf8(aud),
        encode_utf8(sub),
        version,
        iat,
        exp,
        b64url_encoding(header_json(alg)),
        b64url_encoding(claims_json(encode_utf8(iss), encode_utf8(aud), encode_utf8(sub), version, iat, exp)),
        sig,
        now,
    );
    assert(spec_token_bytes(
        alg,
        encode_utf8(iss),
        encode_utf8(aud),
        encode_utf8(sub),
        version,
        iat,
        exp,
        sig,
    ) =~= b64url_encoding(header_json(alg)) + seq![DOT] + b64url_encoding(
        claims_json(encode_utf8(iss), encode_utf8(aud), encode_utf8(sub), version, iat, exp),
    ) + seq![DOT] + sig);
}

/// Expiry: a token that once validated is rejected as `Expired` at any later
/// time past its `exp` claim.
pub proof fn lemma_expired_token_rejected(
    b: Seq<u8>,
    alg: Alg,
    iss: Seq<u8>,
    aud: Seq<u8>,
    now1: u64,
    now2: u64,
)
    requires
        spec_validate(b, alg, iss, aud, now1, true).is_ok(),
        now2 > spec_validate(b, alg, iss, aud, now1, true).unwrap().5,
    ensures
        spec_validate(b, alg, iss, aud, now2, true) == Err::<
            (Seq<u8>, Seq<u8>, Seq<u8>, u32, u64, u64),
            TokenError,
        >(TokenError::Expired),
{
}

/// Algorithm allow-list: whatever validates carries a canonical header that
/// names exactly the expected algorithm, a true signature answer, canonical
/// claims for the expected issuer and audience, and an expiry at or after
/// the time of the check. In particular a token whose header names any other
/// algorithm, or none the crate knows, never validates.
pub proof fn lemma_validate_complete(
    b: Seq<u8>,
    alg: Alg,
    iss: Seq<u8>,
    aud: Seq<u8>,
    now: u64,
    sig_ok: bool,
)
    requires
        spec_validate(b, alg, iss, aud, now, sig_ok).is_ok(),
    ensures
        sig_ok,
        ({
            let (tiss, taud, tsub, ver, iat, exp) = spec_validate(
                b,
                alg,
                iss,
                aud,
                now,
                sig_ok,
            ).unwrap();
            let d1 = spec_find(b, 0, DOT).unwrap();
            let d2 = spec_find(b, d1 + 1, DOT).unwrap();
            &&& tiss == iss
            &&& taud == aud
            &&& now <= exp
            &&& b64url_decoding(b.subrange(0, d1)) == Some(header_json(alg))
            &&& b64url_decoding(b.subrange(d1 + 1, d2)) == Some(
                claims_json(iss, aud, tsub, ver, iat, exp),
            )
        }),
{
    let d1 = spec_find(b, 0, DOT).unwrap();
    let d2 = spec_find(b, d1 + 1, DOT).unwrap();
    let hb = b64url_decoding(b.subrange(0, d1)).unwrap();
    let name = spec_parse_header(hb).unwrap();
    lemma_parse_header_round_trip(name, hb);
    lemma_alg_name_round_trip(alg);
    let cb = b64url_decoding(b.subrange(d1 + 1, d2)).unwrap();
    lemma_parse_claims_complete(cb);
}

impl Token {
    /// Signs this token's claims with `iat` now and `exp` a duration (in
    /// seconds) later, clamping neither; overflow of the expiry and a clock
    /// before the epoch are `InvalidDuration`.
    pub fn issue(
        &self,
        enc_key: &jsonwebtoken::EncodingKey,
        alg: Alg,
        exp_duration_secs: u64,
    ) -> (r: Result<String, TokenError>)
        ensures
            match r {
                Ok(tok) => exists|iat: u64, sig: Seq<u8>|
                    iat + exp_duration_secs <= u64::MAX && encode_utf8(tok@)
                        == #[trigger] spec_token_bytes(
                        alg,
                        encode_utf8(self.iss@),
                        encode_utf8(self.aud@),
                        encode_utf8(self.sub@),
                        self.version,
                        iat,
                        (iat + exp_duration_secs) as u64,
                        sig,
                    ) && token_segments_good(
                        alg,
                        encode_utf8(self.iss@),
                        encode_utf8(self.aud@),
                        encode_utf8(self.sub@),
                        self.version,
                        iat,
                        (iat + exp_duration_secs) as u64,
                        sig,
                    ),
                Err(e) => e == TokenError::InvalidDuration || e == TokenError::Backend,
            },
    {
        let iat = match now_secs() {
            Some(t) => t,
            None => {
                return Err(TokenError::InvalidDuration);
            },
        };
        if exp_duration_secs > u64::MAX - iat {
            return Err(TokenError::InvalidDuration);
        }
        let exp = iat + exp_duration_secs;
        let iss_b = self.iss.as_str().as_bytes_vec();
        let aud_b = self.aud.as_str().as_bytes_vec();
        let sub_b = self.sub.as_str().as_bytes_vec();
        let claims = build_claims(
            iss_b.as_slice(),
            aud_b.as_slice(),
            sub_b.as_slice(),
            self.version,
            iat,
            exp,
        );
        let header = build_header(alg);
        let hseg = b64url_encode(header.as_slice());
        let cseg = b64url_encode(claims.as_slice());
        let sig = {
            let mut msg: Vec<u8> = Vec::new();
            push_slice(&mut msg, hseg.as_slice());
            msg.push(DOT);
            push_slice(&mut msg, cseg.as_slice());
            match sign_bytes(msg.as_slice(), enc_key, alg) {
                Some(s) => s,
                None => {
                    return Err(TokenError::Backend);
                },
            }
        };
        let sig_b = sig.as_str().as_bytes_vec();
        let mut full: Vec<u8> = Vec::new();
        push_slice(&mut full, hseg.as_slice());
        full.push(DOT);
        push_slice(&mut full, cseg.as_slice());
        full.push(DOT);
        push_slice(&mut full, sig_b.as_slice());
        match bytes_to_string(full.as_slice()) {
            Some(tok) => {
                proof {
                    assert(full@ =~= spec_token_bytes(
                        alg,
                        encode_utf8(self.iss@),
                        encode_utf8(self.aud@),
                        encode_utf8(self.sub@),
                        self.version,
                        iat,
                        exp,
                        sig_b@,
                    ));
                }
                Ok(tok)
            },
            None => Err(TokenError::Backend),
        }
    }

    /// The whole validation decision at a given time: three-part shape,
    /// canonical header naming the expected algorithm, signature, canonical
    /// claims, expiry, issuer and audience, in that order.
    pub fn validate_at(
        token: &str,
        validation: &Validation,
        pub_key: &jsonwebtoken::DecodingKey,
        now: u64,
    ) -> (r: Result<Token, TokenError>)
        ensures
            validate_matches_at(
                r,
                encode_utf8(token@),
                validation.alg,
                validation.iss@,
                validation.aud@,
                now,
            ),
            r.is_ok() ==> token_result_matches(
                r,
                spec_validate(
                    encode_utf8(token@),
                    validation.alg,
                    validation.iss@,
                    validation.aud@,
                    now,
                    true,
                ),
            ),
    {
        let tb = token.as_bytes_vec();
        let tlen = tb.len();
        let d1 = match find_byte(&tb, 0, DOT) {
            Some(d) => d,
            None => {
                return Err(TokenError::Malformed);
            },
        };
        let d2 = match find_byte(&tb, d1 + 1, DOT) {
            Some(d) => d,
            None => {
                return Err(TokenError::Malformed);
            },
        };
        if find_byte(&tb, d2 + 1, DOT).is_some() {
            return Err(TokenError::Malformed);
        }
        let hseg = sub_bytes(&tb, 0, d1);
        let hb = match b64url_decode(hseg.as_slice()) {
            Some(v) => v,
            None => {
                return Err(TokenError::Malformed);
            },
        };
        let name = match parse_header_name(&hb) {
            Some(n) => n,
            None => {
                return Err(TokenError::Malformed);
            },
        };
        let talg = match alg_from_bytes(&name) {
            Some(a) => a,
            None => {
                return Err(TokenError::AlgorithmNotAllowed);
            },
        };
        if talg != validation.alg {
            return Err(TokenError::AlgorithmNotAllowed);
        }
        let msg = sub_bytes(&tb, 0, d2);
        let sig_bytes = sub_bytes(&tb, d2 + 1, tlen);
        let sig_ok = match bytes_to_string(sig_bytes.as_slice()) {
            Some(sig_str) => match verify_bytes(
                sig_str.as_str(),
                msg.as_slice(),
                pub_key,
                talg,
            ) {
                Some(b) => b,
                None => false,
            },
            None => false,
        };
        if !sig_ok {
            return Err(TokenError::BadSignature);
        }
        let cseg = sub_bytes(&tb, d1 + 1, d2);
        let cb = match b64url_decode(cseg.as_slice()) {
            Some(v) => v,
            None => {
                return Err(TokenError::Malformed);
            },
        };
        let (tiss, taud, tsub, ver, _iat, exp) = match parse_claims(&cb) {
            Some(c) => c,
            None => {
                return Err(TokenError::Malformed);
            },
        };
        let iss_s = match bytes_to_string(tiss.as_slice()) {
            Some(s) => s,
            None => {
                return Err(TokenError::Malformed);
            },
        };
        let aud_s = match bytes_to_string(taud.as_slice()) {
            Some(s) => s,
            None => {
                return Err(TokenError::Malformed);
            },
        };
        let sub_s = match bytes_to_string(tsub.as_slice()) {
            Some(s) => s,
            None => {
                return Err(TokenError::Malformed);
            },
        };
        if now > exp {
            return Err(TokenError::Expired);
        }
        if !bytes_eq(&tiss, validation.iss.as_slice()) {
            return Err(TokenError::WrongIssuer);
        }
        if !bytes_eq(&taud, validation.aud.as_slice()) {
            return Err(TokenError::WrongAudience);
        }
        Ok(Token { iss: iss_s, aud: aud_s, sub: sub_s, version: ver })
    }

    /// Validation at the current clock reading.
    pub fn validate(
        token: &str,
        validation: &Validation,
        pub_key: &jsonwebtoken::DecodingKey,
    ) -> (r: Result<Token, TokenError>)
        ensures
            r == Err::<Token, TokenError>(TokenError::InvalidDuration) || exists|now: u64|
                #[trigger] validate_matches_at(
                    r,
                    encode_utf8(token@),
                    validation.alg,
                    validation.iss@,
                    validation.aud@,
                    now,
                ),
    {
        let now = match now_secs() {
            Some(t) => t,
            None => {
                return Err(TokenError::InvalidDuration);
            },
        };
        Self::validate_at(token, validation, pub_key, now)
    }
}

} // verus!
