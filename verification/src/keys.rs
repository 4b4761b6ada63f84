//! Fixed-layout composite keys.
//!
//! Every multi-byte integer inside a key is encoded big-endian, so that the
//! lexicographic byte order of encoded keys equals numeric order of the
//! integer fields; prefix iteration over the store then acts as a range scan.
//!
//! Key shapes:
//! - height key: `height:u32[BE]` (4 bytes)
//! - [`UtxoKey`]: `tx_hash[32] || out_idx:u32[BE]` (36 bytes)
//! - [`AddrKeyPrefix`]: `addr_type:u8 || hash[20]` (21 bytes)
//! - [`AddrTxKey`]: prefix || `block_height:u32[BE]` || `tx_hash[32]` (57 bytes)
//! - [`AddrUtxoKey`]: prefix || utxo key (57 bytes)
//!
//! [`TxOutSpend`] is a fixed-layout record value with the same codec style.

use vstd::prelude::*;

use crate::bytesord::{lex_lt, lemma_lex_lt_from_index, agree_upto, has_prefix};

verus! {

/// Big-endian bytes of a `u32`.
pub open spec fn be32(x: u32) -> Seq<u8> {
    seq![(x >> 24) as u8, (x >> 16) as u8, (x >> 8) as u8, x as u8]
}

/// The `u32` read back from 4 big-endian bytes.
pub open spec fn be32_decode(s: Seq<u8>) -> u32
    recommends
        s.len() == 4,
{
    (((s[0] as u32) << 24) | ((s[1] as u32) << 16) | ((s[2] as u32) << 8) | (s[3] as u32)) as u32
}

pub proof fn lemma_be32_round_trip(x: u32)
    ensures
        be32(x).len() == 4,
        be32_decode(be32(x)) == x,
{
    let b0 = (x >> 24) as u8;
    let b1 = (x >> 16) as u8;
    let b2 = (x >> 8) as u8;
    let b3 = x as u8;
    assert((((b0 as u32) << 24) | ((b1 as u32) << 16) | ((b2 as u32) << 8) | (b3 as u32)) == x)
        by (bit_vector)
        requires
            b0 == (x >> 24) as u8,
            b1 == (x >> 16) as u8,
            b2 == (x >> 8) as u8,
            b3 == x as u8,
    ;
}

/// Re-encoding 4 raw big-endian bytes reproduces them.
pub proof fn lemma_be32_decode_enc(s: Seq<u8>)
    requires
        s.len() == 4,
    ensures
        be32(be32_decode(s)) =~= s,
{
    let b0 = s[0];
    let b1 = s[1];
    let b2 = s[2];
    let b3 = s[3];
    let x = be32_decode(s);
    assert((x >> 24) as u8 == b0 && (x >> 16) as u8 == b1 && (x >> 8) as u8 == b2 && x as u8 == b3)
        by (bit_vector)
        requires
            x == (((b0 as u32) << 24) | ((b1 as u32) << 16) | ((b2 as u32) << 8) | (b3 as u32))
                as u32,
    ;
}

/// Big-endian keys order as the numbers do.
pub proof fn lemma_be32_order(x: u32, y: u32)
    requires
        x < y,
    ensures
        lex_lt(be32(x), be32(y)),
{
    let a0 = (x >> 24) as u8;
    let a1 = (x >> 16) as u8;
    let a2 = (x >> 8) as u8;
    let a3 = x as u8;
    let b0 = (y >> 24) as u8;
    let b1 = (y >> 16) as u8;
    let b2 = (y >> 8) as u8;
    let b3 = y as u8;
    assert(a0 < b0 || (a0 == b0 && (a1 < b1 || (a1 == b1 && (a2 < b2 || (a2 == b2 && a3 < b3))))))
        by (bit_vector)
        requires
            x < y,
            a0 == (x >> 24) as u8,
            a1 == (x >> 16) as u8,
            a2 == (x >> 8) as u8,
            a3 == x as u8,
            b0 == (y >> 24) as u8,
            b1 == (y >> 16) as u8,
            b2 == (y >> 8) as u8,
            b3 == y as u8,
    ;
    if a0 < b0 {
        lemma_lex_lt_from_index(be32(x), be32(y), 0);
    } else if a1 < b1 {
        lemma_lex_lt_from_index(be32(x), be32(y), 1);
    } else if a2 < b2 {
        lemma_lex_lt_from_index(be32(x), be32(y), 2);
    } else {
        lemma_lex_lt_from_index(be32(x), be32(y), 3);
    }
}

/// Append the big-endian bytes of `x`.
pub fn push_be32(dst: &mut Vec<u8>, x: u32)
    ensures
        final(dst)@ =~= old(dst)@ + be32(x),
{
    dst.push(#[verifier::truncate] ((x >> 24) as u8));
    dst.push(#[verifier::truncate] ((x >> 16) as u8));
    dst.push(#[verifier::truncate] ((x >> 8) as u8));
    dst.push(#[verifier::truncate] (x as u8));
}

/// Append a whole slice.
pub fn push_bytes(dst: &mut Vec<u8>, src: &[u8])
    ensures
        final(dst)@ =~= old(dst)@ + src@,
{
    let n: usize = src.len();
    let mut i: usize = 0;
    while i < n
        invariant
            0 <= i <= n,
            n == src@.len(),
            dst@ =~= old(dst)@ + src@.subrange(0, i as int),
        decreases n - i,
    {
        dst.push(src[i]);
        i = i + 1;
    }
}

/// Read 4 bytes at `at` as a big-endian `u32`.
pub fn read_be32(src: &[u8], at: usize) -> (x: u32)
    requires
        at + 4 <= src@.len(),
    ensures
        x == be32_decode(src@.subrange(at as int, at + 4)),
{
    let b0: u8 = src[at];
    let b1: u8 = src[at + 1];
    let b2: u8 = src[at + 2];
    let b3: u8 = src[at + 3];
    ((b0 as u32) << 24) | ((b1 as u32) << 16) | ((b2 as u32) << 8) | (b3 as u32)
}

/// Read 32 bytes at `at` into a hash array.
pub fn read_hash32(src: &[u8], at: usize) -> (h: [u8; 32])
    requires
        at + 32 <= src@.len(),
    ensures
        h@ =~= src@.subrange(at as int, at + 32),
{
    let n: usize = src.len();
    let mut h: [u8; 32] = [0u8; 32];
    let mut i: usize = 0;
    while i < 32
        invariant
            0 <= i <= 32,
            at + 32 <= n == src@.len(),
            h@.len() == 32,
            forall|j: int| 0 <= j < i ==> h@[j] == src@[at + j],
        decreases 32 - i,
    {
        h[i] = src[at + i];
        i = i + 1;
    }
    h
}

/// Read 20 bytes at `at` into an address-hash array.
pub fn read_hash20(src: &[u8], at: usize) -> (h: [u8; 20])
    requires
        at + 20 <= src@.len(),
    ensures
        h@ =~= src@.subrange(at as int, at + 20),
{
    let n: usize = src.len();
    let mut h: [u8; 20] = [0u8; 20];
    let mut i: usize = 0;
    while i < 20
        invariant
            0 <= i <= 20,
            at + 20 <= n == src@.len(),
            h@.len() == 20,
            forall|j: int| 0 <= j < i ==> h@[j] == src@[at + j],
        decreases 20 - i,
    {
        h[i] = src[at + i];
        i = i + 1;
    }
    h
}

/// Encode a block height as a 4-byte big-endian store key.
pub fn encode_height_key(height: u32) -> (r: Vec<u8>)
    ensures
        r@ =~= be32(height),
{
    let mut v: Vec<u8> = Vec::new();
    push_be32(&mut v, height);
    v
}

/// Key of one transaction output: `tx_hash[32] || out_idx[BE]`.
#[derive(Clone, Copy, PartialEq, Eq, Debug)]
pub struct UtxoKey {
    pub tx_hash: [u8; 32],
    pub out_idx: u32,
}

impl UtxoKey {
    pub open spec fn enc(self) -> Seq<u8> {
        self.tx_hash@ + be32(self.out_idx)
    }

    /// The decoded fields agree with the raw bytes.
    pub open spec fn decodes_from(self, s: Seq<u8>) -> bool {
        &&& s.len() == 36
        &&& self.tx_hash@ =~= s.subrange(0, 32)
        &&& self.out_idx == be32_decode(s.subrange(32, 36))
    }

    pub fn encode(&self) -> (r: Vec<u8>)
        ensures
            r@ =~= self.enc(),
            r@.len() == 36,
    {
        let mut v: Vec<u8> = Vec::new();
        push_bytes(&mut v, self.tx_hash.as_slice());
        push_be32(&mut v, self.out_idx);
        v
    }

    pub fn decode(src: &[u8]) -> (r: Option<UtxoKey>)
        ensures
            r matches Some(k) ==> k.decodes_from(src@),
            r is Some <==> src@.len() == 36,
    {
        if src.len() != 36 {
            return None;
        }
        let tx_hash = read_hash32(src, 0);
        let out_idx = read_be32(src, 32);
        Some(UtxoKey { tx_hash, out_idx })
    }
}

/// An output key decodes losslessly from its own encoding, and the encoding
/// is injective: equal encodings force equal keys.
pub proof fn lemma_utxo_key_round_trip(k: UtxoKey)
    ensures
        k.enc().len() == 36,
        k.decodes_from(k.enc()),
        forall|k2: UtxoKey| k2.decodes_from(k.enc()) ==> k2 == k,
{
    lemma_be32_round_trip(k.out_idx);
    assert(k.enc().subrange(0, 32) =~= k.tx_hash@);
    assert(k.enc().subrange(32, 36) =~= be32(k.out_idx));
    assert forall|k2: UtxoKey| k2.decodes_from(k.enc()) implies k2 == k by {
        assert(k2.tx_hash@ =~= k.tx_hash@);
        assert(k2.tx_hash == k.tx_hash) by {
            broadcast use vstd::array::axiom_array_ext_equal;

        }
    }
}

/// Address prefix: `addr_type:u8 || hash[20]`; all keys of one address in the
/// address-keyed column families start with this.
#[derive(Clone, Copy, PartialEq, Eq, Debug)]
pub struct AddrKeyPrefix {
    pub addr_type: u8,
    pub addr_hash: [u8; 20],
}

impl AddrKeyPrefix {
    pub open spec fn enc(self) -> Seq<u8> {
        seq![self.addr_type] + self.addr_hash@
    }

    pub open spec fn decodes_from(self, s: Seq<u8>) -> bool {
        &&& s.len() == 21
        &&& self.addr_type == s[0]
        &&& self.addr_hash@ =~= s.subrange(1, 21)
    }

    pub fn encode(&self) -> (r: Vec<u8>)
        ensures
            r@ =~= self.enc(),
            r@.len() == 21,
    {
        let mut v: Vec<u8> = Vec::new();
        v.push(self.addr_type);
        push_bytes(&mut v, self.addr_hash.as_slice());
        v
    }

    pub fn decode(src: &[u8]) -> (r: Option<AddrKeyPrefix>)
        ensures
            r matches Some(k) ==> k.decodes_from(src@),
            r is Some <==> src@.len() == 21,
    {
        if src.len() != 21 {
            return None;
        }
        let addr_type: u8 = src[0];
        let addr_hash = read_hash20(src, 1);
        Some(AddrKeyPrefix { addr_type, addr_hash })
    }
}

pub proof fn lemma_addr_prefix_round_trip(k: AddrKeyPrefix)
    ensures
        k.enc().len() == 21,
        k.decodes_from(k.enc()),
        forall|k2: AddrKeyPrefix| k2.decodes_from(k.enc()) ==> k2 == k,
{
    assert(k.enc().subrange(1, 21) =~= k.addr_hash@);
    assert forall|k2: AddrKeyPrefix| k2.decodes_from(k.enc()) implies k2 == k by {
        assert(k2.addr_hash@ =~= k.addr_hash@);
        assert(k2.addr_hash == k.addr_hash) by {
            broadcast use vstd::array::axiom_array_ext_equal;

        }
    }
}

/// Key of one address/tx pair: prefix, then the height big-endian so that a
/// prefix scan walks an address's history in block order, then the tx hash.
#[derive(Clone, Copy, PartialEq, Eq, Debug)]
pub struct AddrTxKey {
    pub addr_type: u8,
    pub addr_hash: [u8; 20],
    pub block_height: u32,
    pub tx_hash: [u8; 32],
}

impl AddrTxKey {
    pub open spec fn prefix(self) -> AddrKeyPrefix {
        AddrKeyPrefix { addr_type: self.addr_type, addr_hash: self.addr_hash }
    }

    pub open spec fn enc(self) -> Seq<u8> {
        seq![self.addr_type] + self.addr_hash@ + be32(self.block_height) + self.tx_hash@
    }

    pub open spec fn decodes_from(self, s: Seq<u8>) -> bool {
        &&& s.len() == 57
        &&& self.addr_type == s[0]
        &&& self.addr_hash@ =~= s.subrange(1, 21)
        &&& self.block_height == be32_decode(s.subrange(21, 25))
        &&& self.tx_hash@ =~= s.subrange(25, 57)
    }

    pub fn from_parts(prefix: &AddrKeyPrefix, block_height: u32, tx_hash: &[u8; 32]) -> (k:
        AddrTxKey)
        ensures
            k.addr_type == prefix.addr_type,
            k.addr_hash == prefix.addr_hash,
            k.block_height == block_height,
            k.tx_hash == tx_hash,
    {
        AddrTxKey {
            addr_type: prefix.addr_type,
            addr_hash: prefix.addr_hash,
            block_height,
            tx_hash: *tx_hash,
        }
    }

    pub fn encode(&self) -> (r: Vec<u8>)
        ensures
            r@ =~= self.enc(),
            r@.len() == 57,
    {
        let mut v: Vec<u8> = Vec::new();
        v.push(self.addr_type);
        push_bytes(&mut v, self.addr_hash.as_slice());
        push_be32(&mut v, self.block_height);
        push_bytes(&mut v, self.tx_hash.as_slice());
        v
    }

    pub fn decode(src: &[u8]) -> (r: Option<AddrTxKey>)
        ensures
            r matches Some(k) ==> k.decodes_from(src@),
            r is Some <==> src@.len() == 57,
    {
        if src.len() != 57 {
            return None;
        }
        let addr_type: u8 = src[0];
        let addr_hash = read_hash20(src, 1);
        let block_height = read_be32(src, 21);
        let tx_hash = read_hash32(src, 25);
        Some(AddrTxKey { addr_type, addr_hash, block_height, tx_hash })
    }
}

pub proof fn lemma_addr_tx_key_round_trip(k: AddrTxKey)
    ensures
        k.enc().len() == 57,
        k.decodes_from(k.enc()),
        forall|k2: AddrTxKey| k2.decodes_from(k.enc()) ==> k2 == k,
        has_prefix(k.enc(), k.prefix().enc()),
{
    lemma_be32_round_trip(k.block_height);
    assert(k.enc().subrange(1, 21) =~= k.addr_hash@);
    assert(k.enc().subrange(21, 25) =~= be32(k.block_height));
    assert(k.enc().subrange(25, 57) =~= k.tx_hash@);
    assert(k.enc().subrange(0, 21) =~= k.prefix().enc());
    assert forall|k2: AddrTxKey| k2.decodes_from(k.enc()) implies k2 == k by {
        assert(k2.addr_hash@ =~= k.addr_hash@ && k2.tx_hash@ =~= k.tx_hash@);
        assert(k2.addr_hash == k.addr_hash && k2.tx_hash == k.tx_hash) by {
            broadcast use vstd::array::axiom_array_ext_equal;

        }
    }
}

/// Within one address prefix, a lower block height gives a smaller key, so a
/// forward prefix scan is time-ordered.
pub proof fn lemma_addr_tx_key_height_order(k1: AddrTxKey, k2: AddrTxKey)
    requires
        k1.prefix() == k2.prefix(),
        k1.block_height < k2.block_height,
    ensures
        lex_lt(k1.enc(), k2.enc()),
{
    lemma_be32_order(k1.block_height, k2.block_height);
    lemma_lex_lt_append(be32(k1.block_height), be32(k2.block_height), k1.tx_hash@, k2.tx_hash@);
    lemma_lex_lt_prepend(
        seq![k1.addr_type] + k1.addr_hash@,
        be32(k1.block_height) + k1.tx_hash@,
        be32(k2.block_height) + k2.tx_hash@,
    );
    assert(k1.enc() =~= (seq![k1.addr_type] + k1.addr_hash@) + (be32(k1.block_height)
        + k1.tx_hash@));
    assert(k2.enc() =~= (seq![k2.addr_type] + k2.addr_hash@) + (be32(k2.block_height)
        + k2.tx_hash@));
}

/// Appending anything after two equal-length ordered strings keeps the order.
pub proof fn lemma_lex_lt_append(a: Seq<u8>, b: Seq<u8>, x: Seq<u8>, y: Seq<u8>)
    requires
        a.len() == b.len(),
        lex_lt(a, b),
    ensures
        lex_lt(a + x, b + y),
    decreases a.len(),
{
    assert(a.len() > 0);
    if a[0] == b[0] {
        lemma_lex_lt_append(a.skip(1), b.skip(1), x, y);
        assert((a + x).skip(1) =~= a.skip(1) + x);
        assert((b + y).skip(1) =~= b.skip(1) + y);
    } else {
        assert(a[0] < b[0]);
        assert((a + x)[0] == a[0] && (b + y)[0] == b[0]);
    }
}

/// Prepending one common prefix to both sides keeps the order.
pub proof fn lemma_lex_lt_prepend(p: Seq<u8>, x: Seq<u8>, y: Seq<u8>)
    requires
        lex_lt(x, y),
    ensures
        lex_lt(p + x, p + y),
    decreases p.len(),
{
    if p.len() == 0 {
        assert(p + x =~= x);
        assert(p + y =~= y);
    } else {
        lemma_lex_lt_prepend(p.skip(1), x, y);
        assert((p + x).skip(1) =~= p.skip(1) + x);
        assert((p + y).skip(1) =~= p.skip(1) + y);
        assert((p + x)[0] == p[0] && (p + y)[0] == p[0]);
        assert((p + y).len() > 0);
    }
}

/// Key of one address-owned unspent output: prefix, then the output key.
#[derive(Clone, Copy, PartialEq, Eq, Debug)]
pub struct AddrUtxoKey {
    pub addr: AddrKeyPrefix,
    pub utxo_key: UtxoKey,
}

impl AddrUtxoKey {
    pub open spec fn enc(self) -> Seq<u8> {
        self.addr.enc() + self.utxo_key.enc()
    }

    pub open spec fn decodes_from(self, s: Seq<u8>) -> bool {
        &&& s.len() == 57
        &&& self.addr.decodes_from(s.subrange(0, 21))
        &&& self.utxo_key.decodes_from(s.subrange(21, 57))
    }

    pub fn encode(&self) -> (r: Vec<u8>)
        ensures
            r@ =~= self.enc(),
            r@.len() == 57,
    {
        let mut v = self.addr.encode();
        let tail = self.utxo_key.encode();
        push_bytes(&mut v, tail.as_slice());
        v
    }

    pub fn decode(src: &[u8]) -> (r: Option<AddrUtxoKey>)
        ensures
            r matches Some(k) ==> k.decodes_from(src@),
            r is Some <==> src@.len() == 57,
    {
        if src.len() != 57 {
            return None;
        }
        let addr_type: u8 = src[0];
        let addr_hash = read_hash20(src, 1);
        let tx_hash = read_hash32(src, 21);
        let out_idx = read_be32(src, 53);
        proof {
            assert(src@.subrange(0, 21).subrange(1, 21) =~= src@.subrange(1, 21));
            assert(src@.subrange(21, 57).subrange(0, 32) =~= src@.subrange(21, 53));
            assert(src@.subrange(21, 57).subrange(32, 36) =~= src@.subrange(53, 57));
        }
        Some(
            AddrUtxoKey {
                addr: AddrKeyPrefix { addr_type, addr_hash },
                utxo_key: UtxoKey { tx_hash, out_idx },
            },
        )
    }
}

pub proof fn lemma_addr_utxo_key_round_trip(k: AddrUtxoKey)
    ensures
        k.enc().len() == 57,
        k.decodes_from(k.enc()),
        forall|k2: AddrUtxoKey| k2.decodes_from(k.enc()) ==> k2 == k,
        has_prefix(k.enc(), k.addr.enc()),
{
    lemma_utxo_key_round_trip(k.utxo_key);
    lemma_addr_prefix_round_trip(k.addr);
    assert(k.enc().subrange(0, 21) =~= k.addr.enc());
    assert(k.enc().subrange(21, 57) =~= k.utxo_key.enc());
}

/// Record stored under a spent output's key: which input of which tx spent it.
#[derive(Clone, Copy, PartialEq, Eq, Debug)]
pub struct TxOutSpend {
    pub by_tx_hash: [u8; 32],
    pub by_tx_input_idx: u32,
}

impl TxOutSpend {
    pub open spec fn enc(self) -> Seq<u8> {
        self.by_tx_hash@ + be32(self.by_tx_input_idx)
    }

    pub open spec fn decodes_from(self, s: Seq<u8>) -> bool {
        &&& s.len() == 36
        &&& self.by_tx_hash@ =~= s.subrange(0, 32)
        &&& self.by_tx_input_idx == be32_decode(s.subrange(32, 36))
    }

    pub fn encode(&self) -> (r: Vec<u8>)
        ensures
            r@ =~= self.enc(),
            r@.len() == 36,
    {
        let mut v: Vec<u8> = Vec::new();
        push_bytes(&mut v, self.by_tx_hash.as_slice());
        push_be32(&mut v, self.by_tx_input_idx);
        v
    }

    pub fn decode(src: &[u8]) -> (r: Option<TxOutSpend>)
        ensures
            r matches Some(k) ==> k.decodes_from(src@),
            r is Some <==> src@.len() == 36,
    {
        if src.len() != 36 {
            return None;
        }
        let by_tx_hash = read_hash32(src, 0);
        let by_tx_input_idx = read_be32(src, 32);
        Some(TxOutSpend { by_tx_hash, by_tx_input_idx })
    }
}

pub proof fn lemma_tx_out_spend_round_trip(k: TxOutSpend)
    ensures
        k.enc().len() == 36,
        k.decodes_from(k.enc()),
        forall|k2: TxOutSpend| k2.decodes_from(k.enc()) ==> k2 == k,
{
    lemma_be32_round_trip(k.by_tx_input_idx);
    assert(k.enc().subrange(0, 32) =~= k.by_tx_hash@);
    assert(k.enc().subrange(32, 36) =~= be32(k.by_tx_input_idx));
    assert forall|k2: TxOutSpend| k2.decodes_from(k.enc()) implies k2 == k by {
        assert(k2.by_tx_hash@ =~= k.by_tx_hash@);
        assert(k2.by_tx_hash == k.by_tx_hash) by {
            broadcast use vstd::array::axiom_array_ext_equal;

        }
    }
}

/// The smallest byte string that is strictly greater than every string with
/// the given content as a prefix, if the content is not all `0xff`.
pub open spec fn spec_inc_bytes(s: Seq<u8>) -> Seq<u8>
    decreases s.len(),
{
    if s.len() == 0 {
        s
    } else if s.last() == 0xff {
        spec_inc_bytes(s.drop_last()).push(0)
    } else {
        s.drop_last().push((s.last() + 1) as u8)
    }
}

/// Treat the bytes as one big-endian number and add one, wrapping around.
/// Used to seek just past an address prefix before a backward scan.
pub fn inc_bytes(bytes: &mut Vec<u8>)
    ensures
        final(bytes)@ =~= spec_inc_bytes(old(bytes)@),
    decreases old(bytes)@.len(),
{
    let maybe_last: Option<u8> = bytes.pop();
    if let Some(b) = maybe_last {
        if b == 0xff {
            inc_bytes(bytes);
            bytes.push(0);
        } else {
            bytes.push(b + 1);
        }
    }
}

} // verus!
