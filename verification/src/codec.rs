//! Byte-level building blocks for the wire formats this crate emits and
//! accepts: JSON string escaping and unsigned decimal numbers, each with a
//! spec-level description, an emitter, and a parser proved against it.
use vstd::prelude::*;

verus! {

/// `"`
pub const QUOTE: u8 = 0x22;
/// `\`
pub const BACKSLASH: u8 = 0x5c;

pub open spec fn is_digit(c: u8) -> bool {
    0x30 <= c <= 0x39
}

pub open spec fn is_hex_lower(c: u8) -> bool {
    is_digit(c) || (0x61 <= c <= 0x66)
}

/// Numeric value of a lowercase hex digit.
pub open spec fn unhex(c: u8) -> nat {
    if is_digit(c) {
        (c - 0x30) as nat
    } else if 0x61 <= c <= 0x66 {
        (c - 0x57) as nat
    } else {
        0
    }
}

/// Lowercase hex digit for a nibble.
pub open spec fn hex_digit(n: nat) -> u8 {
    if n < 10 {
        (0x30 + n) as u8
    } else {
        (0x57 + n) as u8
    }
}

/// How one byte is written inside a JSON string: quote and backslash get a
/// backslash escape, control bytes become `\u00xy`, everything else stands
/// as itself.
pub open spec fn esc_byte(c: u8) -> Seq<u8> {
    if c == QUOTE {
        seq![BACKSLASH, QUOTE]
    } else if c == BACKSLASH {
        seq![BACKSLASH, BACKSLASH]
    } else if c < 0x20 {
        seq![BACKSLASH, 0x75u8, 0x30u8, 0x30u8, hex_digit((c / 16) as nat), hex_digit((c % 16) as nat)]
    } else {
        seq![c]
    }
}

/// The JSON-escaped form of a byte string.
pub open spec fn esc_bytes(s: Seq<u8>) -> Seq<u8>
    decreases s.len(),
{
    if s.len() == 0 {
        Seq::empty()
    } else {
        esc_byte(s[0]) + esc_bytes(s.drop_first())
    }
}

pub proof fn lemma_esc_bytes_concat(a: Seq<u8>, b: Seq<u8>)
    ensures
        esc_bytes(a + b) == esc_bytes(a) + esc_bytes(b),
    decreases a.len(),
{
    if a.len() == 0 {
        assert(a + b =~= b);
        assert(esc_bytes(a) + esc_bytes(b) =~= esc_bytes(b));
    } else {
        assert((a + b).drop_first() =~= a.drop_first() + b);
        lemma_esc_bytes_concat(a.drop_first(), b);
        assert(esc_byte(a[0]) + (esc_bytes(a.drop_first()) + esc_bytes(b))
            =~= (esc_byte(a[0]) + esc_bytes(a.drop_first())) + esc_bytes(b));
    }
}

pub proof fn lemma_esc_bytes_push(s: Seq<u8>, c: u8)
    ensures
        esc_bytes(s.push(c)) == esc_bytes(s) + esc_byte(c),
{
    assert(s.push(c) =~= s + seq![c]);
    lemma_esc_bytes_concat(s, seq![c]);
    assert(seq![c].drop_first() =~= Seq::<u8>::empty());
    assert(esc_bytes(Seq::<u8>::empty()) =~= Seq::<u8>::empty());
    assert(esc_bytes(seq![c]) =~= esc_byte(c) + esc_bytes(Seq::<u8>::empty()));
    assert(esc_byte(c) + Seq::<u8>::empty() =~= esc_byte(c));
    assert(esc_bytes(s) + esc_bytes(seq![c]) =~= esc_bytes(s) + esc_byte(c));
}

fn hex_digit_exec(n: u8) -> (r: u8)
    requires
        n < 16,
    ensures
        r == hex_digit(n as nat),
{
    if n < 10 {
        0x30 + n
    } else {
        0x57 + n
    }
}

/// Appends the JSON-escaped form of `s` to `out`.
pub fn push_escaped(out: &mut Vec<u8>, s: &[u8])
    ensures
        final(out)@ == old(out)@ + esc_bytes(s@),
{
    let ghost orig = out@;
    let mut k: usize = 0;
    while k < s.len()
        invariant
            k <= s@.len(),
            out@ == orig + esc_bytes(s@.take(k as int)),
        decreases s@.len() - k,
    {
        let c = s[k];
        if c == QUOTE {
            out.push(BACKSLASH);
            out.push(QUOTE);
        } else if c == BACKSLASH {
            out.push(BACKSLASH);
            out.push(BACKSLASH);
        } else if c < 0x20 {
            out.push(BACKSLASH);
            out.push(0x75);
            out.push(0x30);
            out.push(0x30);
            out.push(hex_digit_exec(c / 16));
            out.push(hex_digit_exec(c % 16));
        } else {
            out.push(c);
        }
        proof {
            assert(s@.take(k + 1) =~= s@.take(k as int).push(s@[k as int]));
            lemma_esc_bytes_push(s@.take(k as int), s@[k as int]);
            assert(out@ =~= orig + esc_bytes(s@.take(k + 1)));
        }
        k += 1;
    }
    proof {
        assert(s@.take(s@.len() as int) =~= s@);
    }
}

/// The decimal digits of `n`, most significant first.
pub open spec fn dec_bytes(n: nat) -> Seq<u8>
    decreases n,
{
    if n < 10 {
        seq![(0x30 + n) as u8]
    } else {
        dec_bytes(n / 10).push((0x30 + n % 10) as u8)
    }
}

/// Appends the decimal form of `n` to `out`.
pub fn push_dec(out: &mut Vec<u8>, n: u64)
    ensures
        final(out)@ == old(out)@ + dec_bytes(n as nat),
    decreases n,
{
    if n < 10 {
        out.push(0x30 + n as u8);
        proof {
            assert(old(out)@ + dec_bytes(n as nat) =~= old(out)@.push((0x30 + n as nat) as u8));
        }
    } else {
        push_dec(out, n / 10);
        out.push(0x30 + (n % 10) as u8);
        proof {
            assert(old(out)@ + dec_bytes(n as nat)
                =~= (old(out)@ + dec_bytes((n / 10) as nat)).push((0x30 + (n as nat) % 10) as u8));
        }
    }
}

/// Where the run of decimal digits that starts at `i` ends.
pub open spec fn digits_end(b: Seq<u8>, i: int) -> int
    decreases b.len() - i,
{
    if i < 0 || i >= b.len() || !is_digit(b[i]) {
        i
    } else {
        digits_end(b, i + 1)
    }
}

pub open spec fn digit_val(c: u8) -> nat {
    if is_digit(c) {
        (c - 0x30) as nat
    } else {
        0
    }
}

/// Value of the digit run `b[i..j]`, read as a decimal number.
pub open spec fn digits_value(b: Seq<u8>, i: int, j: int) -> nat
    decreases j - i,
{
    if j <= i {
        0
    } else {
        digits_value(b, i, j - 1) * 10 + digit_val(b[j - 1])
    }
}

/// What a strict decimal parse of `b` at `i` yields: a leading zero stands
/// only for the number zero, and a value beyond `u64` is rejected.
pub open spec fn spec_parse_u64(b: Seq<u8>, i: int) -> Option<(u64, int)> {
    if i < 0 || i >= b.len() || !is_digit(b[i]) {
        None
    } else if b[i] == 0x30 {
        Some((0u64, i + 1))
    } else {
        let j = digits_end(b, i);
        let v = digits_value(b, i, j);
        if v > u64::MAX {
            None
        } else {
            Some((v as u64, j))
        }
    }
}

proof fn lemma_digits_end_of_run(b: Seq<u8>, i: int, j: int)
    requires
        0 <= i <= j <= b.len(),
        forall|k: int| i <= k < j ==> is_digit(#[trigger] b[k]),
        j == b.len() || !is_digit(b[j]),
    ensures
        digits_end(b, i) == j,
    decreases j - i,
{
    if i < j {
        lemma_digits_end_of_run(b, i + 1, j);
    }
}

proof fn lemma_digits_end_bounds(b: Seq<u8>, i: int)
    requires
        0 <= i <= b.len(),
    ensures
        i <= digits_end(b, i) <= b.len(),
        forall|k: int| i <= k < digits_end(b, i) ==> is_digit(#[trigger] b[k]),
        digits_end(b, i) == b.len() || !is_digit(b[digits_end(b, i)]),
    decreases b.len() - i,
{
    if !(i >= b.len() || !is_digit(b[i])) {
        lemma_digits_end_bounds(b, i + 1);
    }
}

/// A digit run grows in value as it grows in length.
proof fn lemma_digits_value_mono(b: Seq<u8>, s: int, j: int, j2: int)
    requires
        s <= j <= j2,
    ensures
        digits_value(b, s, j2) >= digits_value(b, s, j),
    decreases j2 - j,
{
    if j < j2 {
        lemma_digits_value_mono(b, s, j, j2 - 1);
    }
}

/// A digit run with a nonzero leading digit has a nonzero value.
proof fn lemma_digits_value_nonzero(b: Seq<u8>, i: int, j: int)
    requires
        i < j,
        is_digit(b[i]),
        b[i] != 0x30,
    ensures
        digits_value(b, i, j) >= 1,
    decreases j - i,
{
    if j - 1 > i {
        lemma_digits_value_nonzero(b, i, j - 1);
    }
}

/// The decimal digits of `n` are digits, and lead with a nonzero one unless
/// `n` is zero.
proof fn lemma_dec_bytes_shape(n: nat)
    ensures
        dec_bytes(n).len() >= 1,
        forall|k: int| 0 <= k < dec_bytes(n).len() ==> is_digit(#[trigger] dec_bytes(n)[k]),
        n > 0 ==> dec_bytes(n)[0] != 0x30,
        n < 10 ==> dec_bytes(n).len() == 1,
    decreases n,
{
    if n >= 10 {
        lemma_dec_bytes_shape(n / 10);
    }
}

/// Reading the digits of `n` back as a number yields `n`.
proof fn lemma_digits_value_of_dec(b: Seq<u8>, i: int, n: nat)
    requires
        0 <= i,
        i + dec_bytes(n).len() <= b.len(),
        b.subrange(i, i + dec_bytes(n).len() as int) == dec_bytes(n),
    ensures
        digits_value(b, i, i + dec_bytes(n).len() as int) == n,
    decreases n,
{
    lemma_dec_bytes_shape(n);
    let len = dec_bytes(n).len() as int;
    if n < 10 {
        assert(b[i] == dec_bytes(n)[0]);
        assert(digits_value(b, i, i + 1) == digits_value(b, i, i) * 10 + digit_val(b[i]));
    } else {
        let prefix = dec_bytes(n / 10);
        assert(dec_bytes(n) == prefix.push((0x30 + n % 10) as u8));
        assert(b.subrange(i, i + prefix.len() as int) =~= prefix) by {
            assert(forall|k: int| 0 <= k < prefix.len()
                ==> b.subrange(i, i + dec_bytes(n).len() as int)[k] == dec_bytes(n)[k]);
        }
        lemma_digits_value_of_dec(b, i, n / 10);
        assert(b[i + len - 1] == dec_bytes(n)[len - 1]);
        assert(digit_val((0x30 + n % 10) as u8) == n % 10);
        assert(digits_value(b, i, i + len) == digits_value(b, i, i + len - 1) * 10 + digit_val(b[i + len - 1]));
        assert((n / 10) * 10 + n % 10 == n);
    }
}

/// A strict decimal parse succeeds on the decimal form of `n` and stops right
/// after it.
pub proof fn lemma_parse_dec(b: Seq<u8>, i: int, n: u64)
    requires
        0 <= i,
        i + dec_bytes(n as nat).len() <= b.len(),
        b.subrange(i, i + dec_bytes(n as nat).len() as int) == dec_bytes(n as nat),
        i + dec_bytes(n as nat).len() == b.len()
            || !is_digit(b[i + dec_bytes(n as nat).len() as int]),
    ensures
        spec_parse_u64(b, i) == Some((n, i + dec_bytes(n as nat).len() as int)),
{
    lemma_dec_bytes_shape(n as nat);
    let len = dec_bytes(n as nat).len() as int;
    assert forall|k: int| 0 <= k < len implies b[i + k] == dec_bytes(n as nat)[k] by {
        assert(b.subrange(i, i + len)[k] == b[i + k]);
    }
    assert(b[i] == dec_bytes(n as nat)[0]) by {
        assert(b[i + 0] == dec_bytes(n as nat)[0]);
    }
    if n == 0 {
        assert(b[i] == 0x30);
    } else {
        assert forall|k: int| i <= k < i + len implies is_digit(#[trigger] b[k]) by {
            assert(b[i + (k - i)] == dec_bytes(n as nat)[k - i]);
        }
        lemma_digits_end_of_run(b, i, i + len);
        lemma_digits_value_of_dec(b, i, n as nat);
    }
}

/// Whatever a strict decimal parse accepts is exactly the decimal form of the
/// number it returns.
pub proof fn lemma_parse_u64_complete(b: Seq<u8>, i: int)
    requires
        spec_parse_u64(b, i).is_some(),
    ensures
        ({
            let (n, j) = spec_parse_u64(b, i).unwrap();
            &&& i < j <= b.len()
            &&& b.subrange(i, j) == dec_bytes(n as nat)
        }),
{
    let (n, j) = spec_parse_u64(b, i).unwrap();
    if b[i] == 0x30 {
        assert(b.subrange(i, i + 1) =~= dec_bytes(0));
    } else {
        lemma_digits_end_bounds(b, i);
        lemma_run_is_dec_bytes(b, i, j);
    }
}

/// A digit run with no leading zero is the decimal form of its value.
proof fn lemma_run_is_dec_bytes(b: Seq<u8>, i: int, j: int)
    requires
        0 <= i < j <= b.len(),
        forall|k: int| i <= k < j ==> is_digit(#[trigger] b[k]),
        b[i] != 0x30,
    ensures
        b.subrange(i, j) == dec_bytes(digits_value(b, i, j)),
    decreases j - i,
{
    let v = digits_value(b, i, j);
    if j == i + 1 {
        assert(v == digits_value(b, i, i) * 10 + digit_val(b[i]));
        assert(v == digit_val(b[i]));
        assert(b.subrange(i, j) =~= dec_bytes(v));
    } else {
        let v1 = digits_value(b, i, j - 1);
        lemma_digits_value_nonzero(b, i, j - 1);
        assert(v == v1 * 10 + digit_val(b[j - 1]));
        assert(v >= 10);
        assert(v / 10 == v1 && v % 10 == digit_val(b[j - 1])) by {
            assert(digit_val(b[j - 1]) < 10);
        }
        lemma_run_is_dec_bytes(b, i, j - 1);
        assert(dec_bytes(v) == dec_bytes(v1).push((0x30 + v % 10) as u8));
        assert((0x30 + v % 10) as u8 == b[j - 1]);
        assert(b.subrange(i, j) =~= b.subrange(i, j - 1).push(b[j - 1]));
    }
}

/// Strict decimal parser; returns the value and the index just past it.
pub fn parse_u64(b: &Vec<u8>, start: usize) -> (r: Option<(u64, usize)>)
    ensures
        match r {
            Some((n, j)) => spec_parse_u64(b@, start as int) == Some((n, j as int)) && start
                < j <= b@.len(),
            None => spec_parse_u64(b@, start as int).is_none(),
        },
{
    if start >= b.len() || !(0x30 <= b[start] && b[start] <= 0x39) {
        return None;
    }
    if b[start] == 0x30 {
        return Some((0, start + 1));
    }
    let mut i: usize = start + 1;
    let mut acc: u64 = (b[start] - 0x30) as u64;
    proof {
        assert(digits_value(b@, start as int, start + 1)
            == digits_value(b@, start as int, start as int) * 10 + digit_val(b@[start as int]));
    }
    while i < b.len() && 0x30 <= b[i] && b[i] <= 0x39
        invariant
            start < i <= b@.len(),
            forall|k: int| start <= k < i ==> is_digit(#[trigger] b@[k]),
            is_digit(b@[start as int]),
            b@[start as int] != 0x30,
            acc == digits_value(b@, start as int, i as int),
        decreases b@.len() - i,
    {
        let d = b[i] - 0x30;
        if acc > (u64::MAX - d as u64) / 10 {
            proof {
                lemma_digits_end_bounds(b@, start as int);
                let e = digits_end(b@, start as int);
                lemma_digits_end_of_run(b@, start as int, e);
                assert(digits_value(b@, start as int, i + 1)
                    == acc * 10 + digit_val(b@[i as int]));
                assert(acc * 10 + d > u64::MAX) by {
                    assert(acc >= (u64::MAX - d as u64) / 10 + 1);
                    assert(((u64::MAX - d as u64) / 10 + 1) * 10
                        >= (u64::MAX - d as u64) + 1);
                };
                assert(i + 1 <= e) by {
                    assert(is_digit(b@[i as int]));
                    lemma_digits_end_bounds(b@, start as int);
                    if e < i + 1 {
                        assert(is_digit(b@[e]));
                    }
                };
                lemma_digits_value_mono(b@, start as int, i + 1, e);
            }
            return None;
        }
        proof {
            assert(acc * 10 + d <= u64::MAX) by {
                assert(acc <= (u64::MAX - d as u64) / 10);
                assert(acc * 10 <= ((u64::MAX - d as u64) / 10) * 10);
                assert(((u64::MAX - d as u64) / 10) * 10 <= u64::MAX - d as u64);
            };
            assert(digits_value(b@, start as int, i + 1)
                == digits_value(b@, start as int, i as int) * 10 + digit_val(b@[i as int]));
        }
        acc = acc * 10 + d as u64;
        i += 1;
    }
    proof {
        lemma_digits_end_of_run(b@, start as int, i as int);
    }
    Some((acc, i))
}

/// Puts one decoded byte in front of a scan result.
pub open spec fn scan_cons(c: u8, rest: Option<(Seq<u8>, int)>) -> Option<(Seq<u8>, int)> {
    match rest {
        Some((v, j)) => Some((seq![c] + v, j)),
        None => None,
    }
}

/// What scanning a JSON string body at `i` yields: the decoded bytes and the
/// index just past the closing quote. Only the escapes this crate emits are
/// accepted, so a string has exactly one written form.
pub open spec fn spec_scan_string(b: Seq<u8>, i: int) -> Option<(Seq<u8>, int)>
    decreases b.len() - i,
{
    if i < 0 || i >= b.len() {
        None
    } else {
        let c = b[i];
        if c == QUOTE {
            Some((Seq::empty(), i + 1))
        } else if c == BACKSLASH {
            if i + 2 <= b.len() && (b[i + 1] == QUOTE || b[i + 1] == BACKSLASH) {
                scan_cons(b[i + 1], spec_scan_string(b, i + 2))
            } else if i + 6 <= b.len() && b[i + 1] == 0x75 && b[i + 2] == 0x30 && b[i + 3] == 0x30
                && (b[i + 4] == 0x30 || b[i + 4] == 0x31) && is_hex_lower(b[i + 5]) {
                scan_cons(((b[i + 4] - 0x30) * 16 + unhex(b[i + 5])) as u8, spec_scan_string(b, i + 6))
            } else {
                None
            }
        } else if c < 0x20 {
            None
        } else {
            scan_cons(c, spec_scan_string(b, i + 1))
        }
    }
}

/// Scanning recovers `v` from its escaped form followed by a closing quote.
pub proof fn lemma_scan_esc(b: Seq<u8>, i: int, v: Seq<u8>)
    requires
        0 <= i,
        i + esc_bytes(v).len() + 1 <= b.len(),
        b.subrange(i, i + esc_bytes(v).len() + 1) == esc_bytes(v) + seq![QUOTE],
    ensures
        spec_scan_string(b, i) == Some((v, i + esc_bytes(v).len() + 1)),
    decreases v.len(),
{
    let e = esc_bytes(v);
    let j = i + e.len() + 1;
    assert forall|k: int| 0 <= k < e.len() + 1 implies b[i + k] == (e + seq![QUOTE])[k] by {
        assert(b.subrange(i, j)[k] == b[i + k]);
    }
    if v.len() == 0 {
        assert(e =~= Seq::<u8>::empty());
        assert((e + seq![QUOTE])[0] == QUOTE);
        assert(b[i + 0] == QUOTE);
    } else {
        let c = v[0];
        let eb = esc_byte(c);
        let v1 = v.drop_first();
        assert(e == eb + esc_bytes(v1));
        assert forall|k: int| 0 <= k < eb.len() implies b[i + k] == eb[k] by {
            assert((eb + esc_bytes(v1))[k] == eb[k]);
            assert(b[i + k] == (e + seq![QUOTE])[k]);
        }
        let i1 = i + eb.len();
        assert(b.subrange(i1, j) =~= esc_bytes(v1) + seq![QUOTE]) by {
            assert forall|k: int| 0 <= k < j - i1 implies b.subrange(i1, j)[k] == (esc_bytes(v1)
                + seq![QUOTE])[k] by {
                assert(b.subrange(i1, j)[k] == b[i + (k + eb.len())]);
                assert(b[i + (k + eb.len())] == (e + seq![QUOTE])[k + eb.len()]);
            }
        }
        lemma_scan_esc(b, i1, v1);
        assert(seq![c] + v1 =~= v);
        if c == QUOTE || c == BACKSLASH {
            assert(b[i + 0] == BACKSLASH && b[i + 1] == c);
            assert(spec_scan_string(b, i) == scan_cons(b[i + 1], spec_scan_string(b, i + 2)));
        } else if c < 0x20 {
            assert(b[i + 0] == BACKSLASH && b[i + 1] == 0x75 && b[i + 2] == 0x30 && b[i + 3] == 0x30);
            assert(b[i + 4] == hex_digit((c / 16) as nat) && b[i + 5] == hex_digit((c % 16) as nat));
            assert(c / 16 <= 1);
            assert(hex_digit((c / 16) as nat) == 0x30 + c / 16);
            assert(is_hex_lower(b[i + 5]) && unhex(b[i + 5]) == (c % 16) as nat) by {
                if c % 16 < 10 {
                    assert(hex_digit((c % 16) as nat) == 0x30 + c % 16);
                } else {
                    assert(hex_digit((c % 16) as nat) == 0x57 + c % 16);
                }
            }
            assert(((b[i + 4] - 0x30) * 16 + unhex(b[i + 5])) as u8 == c);
            assert(spec_scan_string(b, i) == scan_cons(c, spec_scan_string(b, i + 6)));
        } else {
            assert(b[i + 0] == c);
            assert(spec_scan_string(b, i) == scan_cons(c, spec_scan_string(b, i + 1)));
        }
    }
}

/// Whatever the scanner accepts is exactly the escaped form of the bytes it
/// returns, closed by a quote.
pub proof fn lemma_scan_complete(b: Seq<u8>, i: int)
    requires
        spec_scan_string(b, i).is_some(),
    ensures
        ({
            let (v, j) = spec_scan_string(b, i).unwrap();
            &&& i < j <= b.len()
            &&& j == i + esc_bytes(v).len() + 1
            &&& b.subrange(i, j) == esc_bytes(v) + seq![QUOTE]
        }),
    decreases b.len() - i,
{
    let (v, j) = spec_scan_string(b, i).unwrap();
    let c = b[i];
    if c == QUOTE {
        assert(esc_bytes(v) =~= Seq::<u8>::empty());
        assert(b.subrange(i, i + 1) =~= esc_bytes(v) + seq![QUOTE]);
    } else {
        let (w, step) = if c == BACKSLASH {
            if i + 2 <= b.len() && (b[i + 1] == QUOTE || b[i + 1] == BACKSLASH) {
                (b[i + 1], 2int)
            } else {
                ((((b[i + 4] - 0x30) * 16 + unhex(b[i + 5])) as u8), 6int)
            }
        } else {
            (c, 1int)
        };
        lemma_scan_complete(b, i + step);
        let (v1, j1) = spec_scan_string(b, i + step).unwrap();
        assert(v == seq![w] + v1 && j == j1);
        assert(v[0] == w && v.drop_first() =~= v1);
        assert(esc_bytes(v) == esc_byte(w) + esc_bytes(v1));
        assert(esc_byte(w) == b.subrange(i, i + step)) by {
            if step == 2 {
                assert(b.subrange(i, i + 2) =~= seq![BACKSLASH, w]);
            } else if step == 6 {
                let hi = (b[i + 4] - 0x30) as nat;
                let lo = unhex(b[i + 5]);
                assert(w == hi * 16 + lo && w < 0x20);
                assert((w / 16) as nat == hi && (w % 16) as nat == lo);
                assert(hex_digit(hi) == b[i + 4]);
                assert(hex_digit(lo) == b[i + 5]) by {
                    if is_digit(b[i + 5]) {
                        assert(lo < 10);
                    } else {
                        assert(10 <= lo < 16);
                    }
                }
                assert(b.subrange(i, i + 6) =~= seq![
                    BACKSLASH,
                    0x75u8,
                    0x30u8,
                    0x30u8,
                    hex_digit((w / 16) as nat),
                    hex_digit((w % 16) as nat),
                ]);
            } else {
                assert(b.subrange(i, i + 1) =~= seq![w]);
            }
        }
        assert(b.subrange(i, j) =~= b.subrange(i, i + step) + b.subrange(i + step, j));
        assert(b.subrange(i, j) =~= esc_bytes(v) + seq![QUOTE]);
    }
}

proof fn lemma_scan_append_cons(pre: Seq<u8>, c: u8, r: Option<(Seq<u8>, int)>)
    ensures
        scan_append(pre, scan_cons(c, r)) == scan_append(pre.push(c), r),
{
    match r {
        Some((v, j)) => {
            assert(pre + (seq![c] + v) =~= pre.push(c) + v);
        },
        None => {},
    }
}

/// Puts already-decoded bytes in front of a scan result.
pub open spec fn scan_append(pre: Seq<u8>, r: Option<(Seq<u8>, int)>) -> Option<(Seq<u8>, int)> {
    match r {
        Some((v, j)) => Some((pre + v, j)),
        None => None,
    }
}

fn unhex_exec(c: u8) -> (r: u8)
    requires
        is_hex_lower(c),
    ensures
        r as nat == unhex(c),
{
    if c <= 0x39 {
        c - 0x30
    } else {
        c - 0x57
    }
}

/// Scans a JSON string body starting at `start`; returns the decoded bytes
/// and the index just past the closing quote.
pub fn scan_string(b: &Vec<u8>, start: usize) -> (r: Option<(Vec<u8>, usize)>)
    ensures
        match r {
            Some((v, j)) => spec_scan_string(b@, start as int) == Some((v@, j as int)) && start
                < j <= b@.len(),
            None => spec_scan_string(b@, start as int).is_none(),
        },
{
    let mut i: usize = start;
    let mut out: Vec<u8> = Vec::new();
    loop
        invariant
            start <= i,
            spec_scan_string(b@, start as int) == scan_append(out@, spec_scan_string(b@, i as int)),
        decreases b@.len() - i,
    {
        if i >= b.len() {
            return None;
        }
        let c = b[i];
        if c == QUOTE {
            proof {
                assert(out@ + Seq::<u8>::empty() =~= out@);
            }
            return Some((out, i + 1));
        } else if c == BACKSLASH {
            if b.len() - i >= 2 && (b[i + 1] == QUOTE || b[i + 1] == BACKSLASH) {
                let w = b[i + 1];
                proof {
                    lemma_scan_append_cons(out@, w, spec_scan_string(b@, i + 2));
                }
                out.push(w);
                i += 2;
            } else if b.len() - i >= 6 && b[i + 1] == 0x75 && b[i + 2] == 0x30 && b[i + 3] == 0x30
                && (b[i + 4] == 0x30 || b[i + 4] == 0x31)
                && (0x30 <= b[i + 5] && b[i + 5] <= 0x39 || 0x61 <= b[i + 5] && b[i + 5] <= 0x66) {
                let w = (b[i + 4] - 0x30) * 16 + unhex_exec(b[i + 5]);
                proof {
                    lemma_scan_append_cons(out@, w, spec_scan_string(b@, i + 6));
                }
                out.push(w);
                i += 6;
            } else {
                return None;
            }
        } else if c < 0x20 {
            return None;
        } else {
            proof {
                lemma_scan_append_cons(out@, c, spec_scan_string(b@, i + 1));
            }
            out.push(c);
            i += 1;
        }
    }
}

/// Whether `lit` stands at `i` in `b`; on a match, the index just past it.
pub open spec fn spec_match_lit(b: Seq<u8>, i: int, lit: Seq<u8>) -> Option<int> {
    if 0 <= i && i + lit.len() <= b.len() && b.subrange(i, i + lit.len() as int) == lit {
        Some(i + lit.len() as int)
    } else {
        None
    }
}

/// Checks that `lit` stands at `start` in `b`.
pub fn match_lit(b: &Vec<u8>, start: usize, lit: &[u8]) -> (r: Option<usize>)
    ensures
        match r {
            Some(j) => spec_match_lit(b@, start as int, lit@) == Some(j as int) && start <= j
                <= b@.len(),
            None => spec_match_lit(b@, start as int, lit@).is_none(),
        },
{
    if start > b.len() || b.len() - start < lit.len() {
        proof {
            assert(spec_match_lit(b@, start as int, lit@).is_none());
        }
        return None;
    }
    let mut k: usize = 0;
    while k < lit.len()
        invariant
            k <= lit@.len(),
            start + lit@.len() <= b@.len(),
            start + lit@.len() <= usize::MAX,
            forall|m: int| 0 <= m < k ==> b@[start + m] == lit@[m],
        decreases lit@.len() - k,
    {
        if b[start + k] != lit[k] {
            proof {
                assert(b@.subrange(start as int, start + lit@.len())[k as int] == b@[start + k]);
            }
            return None;
        }
        k += 1;
    }
    proof {
        assert(b@.subrange(start as int, start + lit@.len()) =~= lit@);
    }
    Some(start + lit.len())
}

/// The first position of `x` in `b` at or after `i`.
pub open spec fn spec_find(b: Seq<u8>, i: int, x: u8) -> Option<int>
    decreases b.len() - i,
{
    if i < 0 || i >= b.len() {
        None
    } else if b[i] == x {
        Some(i)
    } else {
        spec_find(b, i + 1, x)
    }
}

/// What a find result means: the position holds `x`, nothing before it does.
pub proof fn lemma_find_props(b: Seq<u8>, i: int, x: u8)
    requires
        0 <= i,
    ensures
        match spec_find(b, i, x) {
            Some(j) => i <= j < b.len() && b[j] == x && forall|k: int|
                i <= k < j ==> #[trigger] b[k] != x,
            None => forall|k: int| i <= k < b.len() ==> #[trigger] b[k] != x,
        },
    decreases b.len() - i,
{
    if i < b.len() && b[i] != x {
        lemma_find_props(b, i + 1, x);
    }
}

/// A position holding `x` with none before it is what find returns.
pub proof fn lemma_find_first(b: Seq<u8>, i: int, j: int, x: u8)
    requires
        0 <= i <= j < b.len(),
        b[j] == x,
        forall|k: int| i <= k < j ==> #[trigger] b[k] != x,
    ensures
        spec_find(b, i, x) == Some(j),
    decreases j - i,
{
    if i < j {
        lemma_find_first(b, i + 1, j, x);
    }
}

/// Finds the first `x` in `b` at or after `start`.
pub fn find_byte(b: &Vec<u8>, start: usize, x: u8) -> (r: Option<usize>)
    ensures
        match r {
            Some(j) => spec_find(b@, start as int, x) == Some(j as int) && start <= j < b@.len(),
            None => spec_find(b@, start as int, x).is_none(),
        },
{
    let mut i: usize = start;
    loop
        invariant
            start <= i,
            spec_find(b@, start as int, x) == spec_find(b@, i as int, x),
        decreases b@.len() - i,
    {
        if i >= b.len() {
            return None;
        }
        if b[i] == x {
            proof {
                lemma_find_props(b@, i as int, x);
            }
            return Some(i);
        }
        i += 1;
    }
}

/// Copies `b[i..j]` out.
pub fn sub_bytes(b: &Vec<u8>, i: usize, j: usize) -> (r: Vec<u8>)
    requires
        i <= j <= b@.len(),
    ensures
        r@ == b@.subrange(i as int, j as int),
{
    let mut out: Vec<u8> = Vec::new();
    let mut k: usize = i;
    while k < j
        invariant
            i <= k <= j <= b@.len(),
            out@ == b@.subrange(i as int, k as int),
        decreases j - k,
    {
        out.push(b[k]);
        proof {
            assert(b@.subrange(i as int, k + 1) =~= b@.subrange(i as int, k as int).push(
                b@[k as int],
            ));
        }
        k += 1;
    }
    out
}

/// Appends all of `s` to `out`.
pub fn push_slice(out: &mut Vec<u8>, s: &[u8])
    ensures
        final(out)@ == old(out)@ + s@,
{
    let mut k: usize = 0;
    while k < s.len()
        invariant
            k <= s@.len(),
            out@ == old(out)@ + s@.take(k as int),
        decreases s@.len() - k,
    {
        out.push(s[k]);
        proof {
            assert(old(out)@ + s@.take(k + 1) =~= (old(out)@ + s@.take(k as int)).push(s@[k as int]));
        }
        k += 1;
    }
    proof {
        assert(s@.take(s@.len() as int) =~= s@);
    }
}

} // verus!
