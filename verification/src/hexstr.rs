//! Hex display of hashes.
//!
//! Block and tx hashes render as hex of the byte-reversed raw hash (the
//! little-endian display convention); input parsed from a URL reverses the
//! same way, so display and parse round-trip.

use vstd::prelude::*;

verus! {

/// The character of one nibble, lowercase.
pub open spec fn nib_char(n: u8) -> char
    recommends
        n < 16,
{
    if n < 10 {
        ((48 + n) as u8) as char
    } else {
        ((87 + n) as u8) as char
    }
}

/// Lowercase hex of a byte string, front to back.
pub open spec fn hex_of(b: Seq<u8>) -> Seq<char> {
    Seq::new(
        2 * b.len(),
        |i: int|
            if i % 2 == 0 {
                nib_char(b[i / 2] >> 4)
            } else {
                nib_char((b[i / 2] & 0xf) as u8)
            },
    )
}

/// The numeric value of a hex digit, or 255 for a non-digit.
pub open spec fn unhex_char(c: char) -> u8 {
    let v = c as int;
    if 48 <= v <= 57 {
        (v - 48) as u8
    } else if 97 <= v <= 102 {
        (v - 87) as u8
    } else if 65 <= v <= 70 {
        (v - 55) as u8
    } else {
        255
    }
}

pub open spec fn is_hex_digit(c: char) -> bool {
    unhex_char(c) < 16
}

/// Bytes of a hex string: defined when the length is even and every
/// character is a hex digit.
pub open spec fn hex_decode(s: Seq<char>) -> Option<Seq<u8>> {
    if s.len() % 2 == 0 && (forall|i: int| 0 <= i < s.len() ==> is_hex_digit(#[trigger] s[i])) {
        Some(
            Seq::new(
                s.len() / 2,
                |i: int| (unhex_char(s[2 * i]) * 16 + unhex_char(s[2 * i + 1])) as u8,
            ),
        )
    } else {
        None
    }
}

/// Hex encoding decodes back to the same bytes.
pub proof fn lemma_hex_round_trip(b: Seq<u8>)
    ensures
        hex_decode(hex_of(b)) == Some(b),
{
    let s = hex_of(b);
    assert forall|i: int| 0 <= i < s.len() implies is_hex_digit(#[trigger] s[i]) by {
        let x = b[i / 2];
        assert((x >> 4) < 16 && (x & 0xf) < 16) by (bit_vector);
        if i % 2 == 0 {
            assert(s[i] == nib_char(x >> 4));
        } else {
            assert(s[i] == nib_char((x & 0xf) as u8));
        }
    }
    let d = hex_decode(s)->0;
    assert forall|i: int| 0 <= i < d.len() implies #[trigger] d[i] == b[i] by {
        let x = b[i];
        let hi = x >> 4;
        let lo = x & 0xf;
        assert(hi < 16 && lo < 16 && hi * 16 + lo == x) by (bit_vector)
            requires
                hi == x >> 4,
                lo == (x & 0xf) as u8,
        ;
        assert(s[2 * i] == nib_char(hi) && s[2 * i + 1] == nib_char(lo));
        assert(unhex_char(nib_char(hi)) == hi && unhex_char(nib_char(lo)) == lo);
    }
    assert(d =~= b);
}

/// The little-endian display form: hex of the reversed bytes.
pub open spec fn le_hex_of(b: Seq<u8>) -> Seq<char> {
    hex_of(b.reverse())
}

/// Turn one nibble into its lowercase hex digit byte.
fn nib_ascii(n: u8) -> (r: u8)
    requires
        n < 16,
    ensures
        r < 128,
        r as char == nib_char(n),
{
    if n < 10 {
        48 + n
    } else {
        87 + n
    }
}

/// Relies on `String::from_utf8`: ASCII bytes decode to exactly those
/// characters, one per byte.
#[verifier::external_body]
fn ascii_to_string(bytes: Vec<u8>) -> (r: String)
    requires
        forall|i: int| 0 <= i < bytes@.len() ==> bytes@[i] < 128,
    ensures
        r@.len() == bytes@.len(),
        forall|i: int| 0 <= i < bytes@.len() ==> r@[i] == bytes@[i] as char,
{
    String::from_utf8(bytes).unwrap_or_default()
}

/// Render a hash in its little-endian display form: hex of the reversed
/// bytes.
pub fn to_le_hex(slice: &[u8]) -> (r: String)
    ensures
        r@ == le_hex_of(slice@),
{
    let n: usize = slice.len();
    let mut out: Vec<u8> = Vec::new();
    let mut i: usize = 0;
    while i < n
        invariant
            0 <= i <= n,
            n == slice@.len(),
            out@.len() == 2 * i,
            forall|j: int| 0 <= j < out@.len() ==> out@[j] < 128,
            forall|j: int| 0 <= j < out@.len() ==> out@[j] as char == le_hex_of(slice@)[j],
        decreases n - i,
    {
        let b: u8 = slice[n - 1 - i];
        proof {
            assert(slice@.reverse()[i as int] == slice@[n - 1 - i]);
            assert((b >> 4) < 16 && (b & 0xf) < 16) by (bit_vector);
        }
        out.push(nib_ascii(b >> 4));
        out.push(nib_ascii(b & 0xf));
        i = i + 1;
    }
    let r = ascii_to_string(out);
    proof {
        assert(r@ =~= le_hex_of(slice@));
    }
    r
}

/// Parse a hash from its little-endian display form; the result is the raw
/// (reversed) bytes. Fails on an odd length or a non-hex character.
pub fn from_le_hex(string: &str) -> (r: Result<Vec<u8>, ()>)
    ensures
        r matches Ok(b) ==> (hex_decode(string@) matches Some(d) && b@ == d.reverse()),
        r is Err <==> hex_decode(string@) is None,
{
    let n: usize = string.unicode_len();
    if n % 2 != 0 {
        return Err(());
    }
    let mut digits: Vec<u8> = Vec::new();
    let mut i: usize = 0;
    while i < n
        invariant
            0 <= i <= n,
            i % 2 == 0,
            n == string@.len(),
            n % 2 == 0,
            digits@.len() == i / 2,
            forall|j: int| 0 <= j < i ==> is_hex_digit(#[trigger] string@[j]),
            forall|j: int| 0 <= j < digits@.len() ==> digits@[j] == (unhex_char(string@[2 * j]) * 16
                + unhex_char(string@[2 * j + 1])) as u8,
        decreases n - i,
    {
        let c1: char = string.get_char(i);
        let c2: char = string.get_char(i + 1);
        let v1: u8 = unhex_exec(c1);
        let v2: u8 = unhex_exec(c2);
        if v1 >= 16 || v2 >= 16 {
            return Err(());
        }
        digits.push(v1 * 16 + v2);
        i = i + 2;
    }
    let mut out: Vec<u8> = Vec::new();
    let m: usize = digits.len();
    let mut i: usize = 0;
    while i < m
        invariant
            0 <= i <= m,
            m == digits@.len(),
            out@.len() == i,
            forall|j: int| 0 <= j < i ==> out@[j] == digits@[m - 1 - j],
        decreases m - i,
    {
        out.push(digits[m - 1 - i]);
        i = i + 1;
    }
    proof {
        assert(hex_decode(string@) matches Some(d) && out@ =~= d.reverse());
    }
    Ok(out)
}

/// The numeric value of a hex digit, or 255.
fn unhex_exec(c: char) -> (r: u8)
    ensures
        r == unhex_char(c),
{
    let v: u32 = c as u32;
    if 48 <= v && v <= 57 {
        (v - 48) as u8
    } else if 97 <= v && v <= 102 {
        (v - 87) as u8
    } else if 65 <= v && v <= 70 {
        (v - 55) as u8
    } else {
        255
    }
}

/// Decimal digits of a number, most significant first.
pub open spec fn dec_of(n: int) -> Seq<char>
    decreases n,
{
    if n <= 0 {
        Seq::empty()
    } else {
        dec_of(n / 10).push(((48 + (n % 10)) as u8) as char)
    }
}

/// The canonical decimal rendering: "0" for zero, no leading zeros
/// otherwise.
pub open spec fn dec_str(n: int) -> Seq<char> {
    if n == 0 {
        seq!['0']
    } else {
        dec_of(n)
    }
}

/// Render a number in decimal.
pub fn u32_to_dec(x: u32) -> (r: String)
    ensures
        r@ == dec_str(x as int),
{
    if x == 0 {
        let mut out: Vec<u8> = Vec::new();
        out.push(48);
        let r = ascii_to_string(out);
        proof {
            assert(r@ =~= seq!['0']);
        }
        return r;
    }
    let mut rev: Vec<u8> = Vec::new();
    let mut rest: u32 = x;
    while rest > 0
        invariant
            0 <= rest <= x,
            forall|j: int| 0 <= j < rev@.len() ==> 48 <= #[trigger] rev@[j] < 58,
            dec_of(x as int) =~= dec_of(rest as int) + rev_digits(rev@),
        decreases rest,
    {
        let d: u8 = (rest % 10) as u8;
        rev.push(48 + d);
        proof {
            assert(dec_of(rest as int) =~= dec_of(rest as int / 10).push(
                ((48 + (rest as int % 10)) as u8) as char,
            ));
            assert(rev_digits(rev@) =~= seq![((48 + (rest as int % 10)) as u8) as char]
                + rev_digits(rev@.drop_last().reverse().reverse()));
        }
        rest = rest / 10;
    }
    let mut out: Vec<u8> = Vec::new();
    let m: usize = rev.len();
    let mut i: usize = 0;
    while i < m
        invariant
            0 <= i <= m,
            m == rev@.len(),
            out@.len() == i,
            forall|j: int| 0 <= j < rev@.len() ==> 48 <= #[trigger] rev@[j] < 58,
            forall|j: int| 0 <= j < i ==> out@[j] == rev@[m - 1 - j],
        decreases m - i,
    {
        out.push(rev[m - 1 - i]);
        i = i + 1;
    }
    let r = ascii_to_string(out);
    proof {
        assert(dec_of(0int) =~= Seq::<char>::empty());
        assert(r@ =~= rev_digits(rev@));
        assert(r@ =~= dec_str(x as int));
    }
    r
}

/// The characters of collected digit bytes, least significant first, read
/// back most significant first.
pub open spec fn rev_digits(bytes: Seq<u8>) -> Seq<char> {
    Seq::new(bytes.len(), |j: int| bytes[bytes.len() - 1 - j] as char)
}

/// Parse a decimal number; `None` on empty input, a non-digit, or overflow.
pub open spec fn spec_parse_u32(s: Seq<char>) -> Option<u32>
    decreases s.len(),
{
    if s.len() == 0 {
        None
    } else if !(forall|i: int| 0 <= i < s.len() ==> 48 <= (#[trigger] s[i]) as int <= 57) {
        None
    } else if dec_value(s) > u32::MAX {
        None
    } else {
        Some(dec_value(s) as u32)
    }
}

/// Numeric value of decimal digits.
pub open spec fn dec_value(s: Seq<char>) -> int
    decreases s.len(),
{
    if s.len() == 0 {
        0
    } else {
        dec_value(s.drop_last()) * 10 + (s.last() as int - 48)
    }
}

/// Parse a decimal `u32`.
pub fn parse_u32(s: &str) -> (r: Option<u32>)
    ensures
        r == spec_parse_u32(s@),
{
    let n: usize = s.unicode_len();
    if n == 0 {
        return None;
    }
    let mut value: u64 = 0;
    let mut i: usize = 0;
    while i < n
        invariant
            0 <= i <= n,
            n == s@.len(),
            forall|j: int| 0 <= j < i ==> 48 <= (#[trigger] s@[j]) as int <= 57,
            value == dec_value(s@.subrange(0, i as int)),
            value <= u32::MAX,
        decreases n - i,
    {
        let c: char = s.get_char(i);
        let v: u32 = c as u32;
        if v < 48 || v > 57 {
            return None;
        }
        proof {
            assert(s@.subrange(0, i + 1).drop_last() =~= s@.subrange(0, i as int));
            assert(s@.subrange(0, i + 1).last() == s@[i as int]);
        }
        let next: u64 = value * 10 + (v - 48) as u64;
        if next > u32::MAX as u64 {
            proof {
                if forall|j: int| 0 <= j < s@.len() ==> 48 <= (#[trigger] s@[j]) as int <= 57 {
                    lemma_dec_value_monotone(s@.subrange(0, i + 1), s@);
                }
            }
            return None;
        }
        value = next;
        i = i + 1;
    }
    proof {
        assert(s@.subrange(0, n as int) =~= s@);
    }
    Some(value as u32)
}

/// A digit string's value only grows as it extends.
proof fn lemma_dec_value_monotone(p: Seq<char>, s: Seq<char>)
    requires
        p.len() <= s.len(),
        p =~= s.subrange(0, p.len() as int),
        forall|i: int| 0 <= i < s.len() ==> 48 <= (#[trigger] s[i]) as int <= 57,
    ensures
        dec_value(s) >= dec_value(p),
        dec_value(p) >= 0,
    decreases s.len(),
{
    if p.len() == 0 {
        lemma_dec_value_nonneg(s);
    } else if p.len() == s.len() {
        assert(p =~= s);
        lemma_dec_value_nonneg(p);
    } else {
        lemma_dec_value_monotone(p, s.drop_last());
        lemma_dec_value_nonneg(s.drop_last());
    }
}

proof fn lemma_dec_value_nonneg(s: Seq<char>)
    requires
        forall|i: int| 0 <= i < s.len() ==> 48 <= (#[trigger] s[i]) as int <= 57,
    ensures
        dec_value(s) >= 0,
    decreases s.len(),
{
    if s.len() > 0 {
        lemma_dec_value_nonneg(s.drop_last());
    }
}

} // verus!
