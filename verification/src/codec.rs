//! Primitive layer of the record codec.
//!
//! Record values are stored as fixed-order field concatenations: little-endian
//! integers, one-byte booleans and tags, and length-prefixed byte strings.
//! Every primitive has a spec-level encoding, an exec writer that appends to a
//! buffer, and an exec reader proved against the same spec.

use vstd::prelude::*;

verus! {

/// Little-endian bytes of a `u32`.
pub open spec fn le32(x: u32) -> Seq<u8> {
    seq![x as u8, (x >> 8) as u8, (x >> 16) as u8, (x >> 24) as u8]
}

pub open spec fn le32_decode(s: Seq<u8>) -> u32
    recommends
        s.len() == 4,
{
    ((s[0] as u32) | ((s[1] as u32) << 8) | ((s[2] as u32) << 16) | ((s[3] as u32) << 24)) as u32
}

pub proof fn lemma_le32_round_trip(x: u32)
    ensures
        le32(x).len() == 4,
        le32_decode(le32(x)) == x,
{
    let b0 = x as u8;
    let b1 = (x >> 8) as u8;
    let b2 = (x >> 16) as u8;
    let b3 = (x >> 24) as u8;
    assert(((b0 as u32) | ((b1 as u32) << 8) | ((b2 as u32) << 16) | ((b3 as u32) << 24)) == x)
        by (bit_vector)
        requires
            b0 == x as u8,
            b1 == (x >> 8) as u8,
            b2 == (x >> 16) as u8,
            b3 == (x >> 24) as u8,
    ;
}

/// Little-endian bytes of a `u64`.
pub open spec fn le64(x: u64) -> Seq<u8> {
    seq![
        x as u8,
        (x >> 8) as u8,
        (x >> 16) as u8,
        (x >> 24) as u8,
        (x >> 32) as u8,
        (x >> 40) as u8,
        (x >> 48) as u8,
        (x >> 56) as u8,
    ]
}

pub open spec fn le64_decode(s: Seq<u8>) -> u64
    recommends
        s.len() == 8,
{
    ((s[0] as u64) | ((s[1] as u64) << 8) | ((s[2] as u64) << 16) | ((s[3] as u64) << 24) | ((
    s[4] as u64) << 32) | ((s[5] as u64) << 40) | ((s[6] as u64) << 48) | ((s[7] as u64) << 56))
        as u64
}

pub proof fn lemma_le64_round_trip(x: u64)
    ensures
        le64(x).len() == 8,
        le64_decode(le64(x)) == x,
{
    let b0 = x as u8;
    let b1 = (x >> 8) as u8;
    let b2 = (x >> 16) as u8;
    let b3 = (x >> 24) as u8;
    let b4 = (x >> 32) as u8;
    let b5 = (x >> 40) as u8;
    let b6 = (x >> 48) as u8;
    let b7 = (x >> 56) as u8;
    assert(((b0 as u64) | ((b1 as u64) << 8) | ((b2 as u64) << 16) | ((b3 as u64) << 24) | ((
    b4 as u64) << 32) | ((b5 as u64) << 40) | ((b6 as u64) << 48) | ((b7 as u64) << 56)) == x)
        by (bit_vector)
        requires
            b0 == x as u8,
            b1 == (x >> 8) as u8,
            b2 == (x >> 16) as u8,
            b3 == (x >> 24) as u8,
            b4 == (x >> 32) as u8,
            b5 == (x >> 40) as u8,
            b6 == (x >> 48) as u8,
            b7 == (x >> 56) as u8,
    ;
}

/// Signed fields travel as their two's-complement bit pattern.
pub open spec fn enc_i64(x: i64) -> Seq<u8> {
    le64(x as u64)
}

pub open spec fn dec_i64(s: Seq<u8>) -> i64
    recommends
        s.len() == 8,
{
    le64_decode(s) as i64
}

pub proof fn lemma_i64_round_trip(x: i64)
    ensures
        enc_i64(x).len() == 8,
        dec_i64(enc_i64(x)) == x,
{
    lemma_le64_round_trip(x as u64);
    assert(((x as u64) as i64) == x) by (bit_vector);
}

pub open spec fn enc_i32(x: i32) -> Seq<u8> {
    le32(x as u32)
}

pub open spec fn dec_i32(s: Seq<u8>) -> i32
    recommends
        s.len() == 4,
{
    le32_decode(s) as i32
}

pub proof fn lemma_i32_round_trip(x: i32)
    ensures
        enc_i32(x).len() == 4,
        dec_i32(enc_i32(x)) == x,
{
    lemma_le32_round_trip(x as u32);
    assert(((x as u32) as i32) == x) by (bit_vector);
}

pub open spec fn enc_bool(b: bool) -> Seq<u8> {
    seq![if b { 1u8 } else { 0u8 }]
}

/// A length-prefixed byte string: `len:u32[LE] || bytes`. Only strings whose
/// length fits a `u32` are encodable.
pub open spec fn enc_bytes_lp(s: Seq<u8>) -> Seq<u8> {
    le32(s.len() as u32) + s
}

pub open spec fn bytes_lp_fits(s: Seq<u8>) -> bool {
    s.len() <= u32::MAX
}

/// Re-encoding 4 raw bytes reproduces them.
pub proof fn lemma_le32_decode_enc(s: Seq<u8>)
    requires
        s.len() == 4,
    ensures
        le32(le32_decode(s)) =~= s,
{
    let b0 = s[0];
    let b1 = s[1];
    let b2 = s[2];
    let b3 = s[3];
    let x = le32_decode(s);
    assert(x as u8 == b0 && (x >> 8) as u8 == b1 && (x >> 16) as u8 == b2 && (x >> 24) as u8 == b3)
        by (bit_vector)
        requires
            x == ((b0 as u32) | ((b1 as u32) << 8) | ((b2 as u32) << 16) | ((b3 as u32) << 24))
                as u32,
    ;
}

/// Re-encoding 8 raw bytes reproduces them.
pub proof fn lemma_le64_decode_enc(s: Seq<u8>)
    requires
        s.len() == 8,
    ensures
        le64(le64_decode(s)) =~= s,
{
    let b0 = s[0];
    let b1 = s[1];
    let b2 = s[2];
    let b3 = s[3];
    let b4 = s[4];
    let b5 = s[5];
    let b6 = s[6];
    let b7 = s[7];
    let x = le64_decode(s);
    assert(x as u8 == b0 && (x >> 8) as u8 == b1 && (x >> 16) as u8 == b2 && (x >> 24) as u8 == b3
        && (x >> 32) as u8 == b4 && (x >> 40) as u8 == b5 && (x >> 48) as u8 == b6 && (x >> 56)
        as u8 == b7)
        by (bit_vector)
        requires
            x == ((b0 as u64) | ((b1 as u64) << 8) | ((b2 as u64) << 16) | ((b3 as u64) << 24) | ((
            b4 as u64) << 32) | ((b5 as u64) << 40) | ((b6 as u64) << 48) | ((b7 as u64) << 56))
                as u64,
    ;
}

pub proof fn lemma_i64_decode_enc(s: Seq<u8>)
    requires
        s.len() == 8,
    ensures
        enc_i64(dec_i64(s)) =~= s,
{
    lemma_le64_decode_enc(s);
    let u = le64_decode(s);
    assert(((u as i64) as u64) == u) by (bit_vector);
}

pub proof fn lemma_i32_decode_enc(s: Seq<u8>)
    requires
        s.len() == 4,
    ensures
        enc_i32(dec_i32(s)) =~= s,
{
    lemma_le32_decode_enc(s);
    let u = le32_decode(s);
    assert(((u as i32) as u32) == u) by (bit_vector);
}

/// Writers.
pub fn push_le32(dst: &mut Vec<u8>, x: u32)
    ensures
        final(dst)@ =~= old(dst)@ + le32(x),
{
    dst.push(#[verifier::truncate] (x as u8));
    dst.push(#[verifier::truncate] ((x >> 8) as u8));
    dst.push(#[verifier::truncate] ((x >> 16) as u8));
    dst.push(#[verifier::truncate] ((x >> 24) as u8));
}

pub fn push_le64(dst: &mut Vec<u8>, x: u64)
    ensures
        final(dst)@ =~= old(dst)@ + le64(x),
{
    dst.push(#[verifier::truncate] (x as u8));
    dst.push(#[verifier::truncate] ((x >> 8) as u8));
    dst.push(#[verifier::truncate] ((x >> 16) as u8));
    dst.push(#[verifier::truncate] ((x >> 24) as u8));
    dst.push(#[verifier::truncate] ((x >> 32) as u8));
    dst.push(#[verifier::truncate] ((x >> 40) as u8));
    dst.push(#[verifier::truncate] ((x >> 48) as u8));
    dst.push(#[verifier::truncate] ((x >> 56) as u8));
}

pub fn push_i64(dst: &mut Vec<u8>, x: i64)
    ensures
        final(dst)@ =~= old(dst)@ + enc_i64(x),
{
    push_le64(dst, #[verifier::truncate] (x as u64));
}

pub fn push_i32(dst: &mut Vec<u8>, x: i32)
    ensures
        final(dst)@ =~= old(dst)@ + enc_i32(x),
{
    push_le32(dst, #[verifier::truncate] (x as u32));
}

pub fn push_bool(dst: &mut Vec<u8>, b: bool)
    ensures
        final(dst)@ =~= old(dst)@ + enc_bool(b),
{
    dst.push(if b {
        1u8
    } else {
        0u8
    });
}

pub fn push_bytes_lp(dst: &mut Vec<u8>, src: &[u8])
    requires
        src@.len() <= u32::MAX,
    ensures
        final(dst)@ =~= old(dst)@ + enc_bytes_lp(src@),
{
    push_le32(dst, src.len() as u32);
    crate::keys::push_bytes(dst, src);
}

/// Readers.
pub fn read_le32(src: &[u8], at: usize) -> (x: u32)
    requires
        at + 4 <= src@.len(),
    ensures
        x == le32_decode(src@.subrange(at as int, at + 4)),
{
    let b0: u8 = src[at];
    let b1: u8 = src[at + 1];
    let b2: u8 = src[at + 2];
    let b3: u8 = src[at + 3];
    (b0 as u32) | ((b1 as u32) << 8) | ((b2 as u32) << 16) | ((b3 as u32) << 24)
}

pub fn read_le64(src: &[u8], at: usize) -> (x: u64)
    requires
        at + 8 <= src@.len(),
    ensures
        x == le64_decode(src@.subrange(at as int, at + 8)),
{
    let b0: u8 = src[at];
    let b1: u8 = src[at + 1];
    let b2: u8 = src[at + 2];
    let b3: u8 = src[at + 3];
    let b4: u8 = src[at + 4];
    let b5: u8 = src[at + 5];
    let b6: u8 = src[at + 6];
    let b7: u8 = src[at + 7];
    (b0 as u64) | ((b1 as u64) << 8) | ((b2 as u64) << 16) | ((b3 as u64) << 24) | ((b4 as u64)
        << 32) | ((b5 as u64) << 40) | ((b6 as u64) << 48) | ((b7 as u64) << 56)
}

pub fn read_i64(src: &[u8], at: usize) -> (x: i64)
    requires
        at + 8 <= src@.len(),
    ensures
        x == dec_i64(src@.subrange(at as int, at + 8)),
{
    let u: u64 = read_le64(src, at);
    #[verifier::truncate] (u as i64)
}

pub fn read_i32(src: &[u8], at: usize) -> (x: i32)
    requires
        at + 4 <= src@.len(),
    ensures
        x == dec_i32(src@.subrange(at as int, at + 4)),
{
    let u: u32 = read_le32(src, at);
    #[verifier::truncate] (u as i32)
}

/// Copy `n` bytes starting at `at` into a fresh vector.
pub fn read_vec(src: &[u8], at: usize, n: usize) -> (r: Vec<u8>)
    requires
        at + n <= src@.len(),
    ensures
        r@ =~= src@.subrange(at as int, at + n),
{
    let m: usize = src.len();
    let mut r: Vec<u8> = Vec::new();
    let mut i: usize = 0;
    while i < n
        invariant
            0 <= i <= n,
            at + n <= m == src@.len(),
            r@ =~= src@.subrange(at as int, at + i),
        decreases n - i,
    {
        r.push(src[at + i]);
        i = i + 1;
    }
    r
}

} // verus!
