//! Record values stored in the column families.
//!
//! Each record has a spec-level byte encoding (`enc`), an exec encoder proved
//! to produce it, and a strict exec decoder proved sound (a decoded value
//! re-encodes to exactly the input) and complete (decoding never fails on a
//! well-formed value's encoding). Sum types travel under one-byte tags; byte
//! strings are length-prefixed.

use vstd::prelude::*;

use crate::codec::{le32, le64, le32_decode, le64_decode, enc_i32, enc_i64, dec_i32, dec_i64,
    enc_bool, enc_bytes_lp, push_le32, push_le64, push_i32, push_i64, push_bool, push_bytes_lp,
    read_le32, read_le64, read_i32, read_i64, read_vec, lemma_le32_round_trip,
    lemma_le64_round_trip, lemma_i32_round_trip, lemma_i64_round_trip, lemma_le32_decode_enc,
    lemma_le64_decode_enc, lemma_i32_decode_enc, lemma_i64_decode_enc};
use crate::keys::{push_bytes, read_hash32};

verus! {

/// The eight supported SLP actions: GENESIS/MINT/SEND for token type 1, and
/// the NFT1 group/child sub-protocol.
#[derive(Clone, Copy, PartialEq, Eq, Structural, Debug)]
pub enum SlpAction {
    SlpV1Genesis,
    SlpV1Mint,
    SlpV1Send,
    SlpV1Nft1GroupGenesis,
    SlpV1Nft1GroupMint,
    SlpV1Nft1GroupSend,
    SlpV1Nft1UniqueChildGenesis,
    SlpV1Nft1UniqueChildSend,
}

impl SlpAction {
    /// Wire tag of the action.
    pub open spec fn tag(self) -> u8 {
        match self {
            SlpAction::SlpV1Genesis => 1,
            SlpAction::SlpV1Mint => 2,
            SlpAction::SlpV1Send => 3,
            SlpAction::SlpV1Nft1GroupGenesis => 4,
            SlpAction::SlpV1Nft1GroupMint => 5,
            SlpAction::SlpV1Nft1GroupSend => 6,
            SlpAction::SlpV1Nft1UniqueChildGenesis => 7,
            SlpAction::SlpV1Nft1UniqueChildSend => 8,
        }
    }

    pub fn encode_tag(&self) -> (t: u8)
        ensures
            t == self.tag(),
    {
        match self {
            SlpAction::SlpV1Genesis => 1,
            SlpAction::SlpV1Mint => 2,
            SlpAction::SlpV1Send => 3,
            SlpAction::SlpV1Nft1GroupGenesis => 4,
            SlpAction::SlpV1Nft1GroupMint => 5,
            SlpAction::SlpV1Nft1GroupSend => 6,
            SlpAction::SlpV1Nft1UniqueChildGenesis => 7,
            SlpAction::SlpV1Nft1UniqueChildSend => 8,
        }
    }

    pub fn decode_tag(t: u8) -> (r: Option<SlpAction>)
        ensures
            r matches Some(a) ==> a.tag() == t,
            r is Some <==> 1 <= t <= 8,
    {
        match t {
            1u8 => Some(SlpAction::SlpV1Genesis),
            2u8 => Some(SlpAction::SlpV1Mint),
            3u8 => Some(SlpAction::SlpV1Send),
            4u8 => Some(SlpAction::SlpV1Nft1GroupGenesis),
            5u8 => Some(SlpAction::SlpV1Nft1GroupMint),
            6u8 => Some(SlpAction::SlpV1Nft1GroupSend),
            7u8 => Some(SlpAction::SlpV1Nft1UniqueChildGenesis),
            8u8 => Some(SlpAction::SlpV1Nft1UniqueChildSend),
            _ => None,
        }
    }
}

/// Equal tags mean equal actions.
pub proof fn lemma_slp_action_tag_injective(a: SlpAction, b: SlpAction)
    requires
        a.tag() == b.tag(),
    ensures
        a == b,
{
}

/// How a transaction relates to the SLP token layer.
#[derive(Clone, PartialEq, Eq, Debug)]
pub enum TxMetaVariant {
    /// Plain satoshi transfer, no (effective) token action.
    SatsOnly,
    /// A valid SLP transaction of a supported action.
    Slp { action: SlpAction, token_input: u64, token_output: u64, token_id: [u8; 32] },
    /// Judged invalid or unsupported while consuming token inputs: a burn.
    InvalidSlp { token_id: Vec<u8>, token_input: u64 },
}

impl TxMetaVariant {
    pub open spec fn wf(self) -> bool {
        match self {
            TxMetaVariant::InvalidSlp { token_id, .. } => token_id@.len() <= u32::MAX,
            _ => true,
        }
    }

    pub open spec fn enc(self) -> Seq<u8> {
        match self {
            TxMetaVariant::SatsOnly => seq![0u8],
            TxMetaVariant::Slp { action, token_input, token_output, token_id } => seq![1u8, action.tag()]
                + le64(token_input) + le64(token_output) + token_id@,
            TxMetaVariant::InvalidSlp { token_id, token_input } => seq![2u8] + enc_bytes_lp(
                token_id@,
            ) + le64(token_input),
        }
    }

    pub fn encode_onto(&self, dst: &mut Vec<u8>)
        requires
            self.wf(),
        ensures
            final(dst)@ =~= old(dst)@ + self.enc(),
    {
        match self {
            TxMetaVariant::SatsOnly => {
                dst.push(0u8);
            },
            TxMetaVariant::Slp { action, token_input, token_output, token_id } => {
                dst.push(1u8);
                dst.push(action.encode_tag());
                push_le64(dst, *token_input);
                push_le64(dst, *token_output);
                push_bytes(dst, token_id.as_slice());
            },
            TxMetaVariant::InvalidSlp { token_id, token_input } => {
                dst.push(2u8);
                push_bytes_lp(dst, token_id.as_slice());
                push_le64(dst, *token_input);
            },
        }
    }

    /// Decode the variant occupying `src[at..]` exactly.
    #[verifier::rlimit(50)]
    pub fn decode_tail(src: &[u8], at: usize) -> (r: Option<TxMetaVariant>)
        requires
            at <= src@.len(),
        ensures
            r matches Some(v) ==> v.wf() && v.enc() =~= src@.subrange(at as int, src@.len() as int),
            (exists|v2: TxMetaVariant|
                v2.wf() && src@.subrange(at as int, src@.len() as int) == v2.enc()) ==> r is Some,
    {
        let ghost tail = src@.subrange(at as int, src@.len() as int);
        let n: usize = src.len();
        if at >= n {
            proof {
                witness_contradiction_empty(tail);
            }
            return None;
        }
        let tag: u8 = src[at];
        if tag == 0 {
            if n - at != 1 {
                proof {
                    if exists|v2: TxMetaVariant| v2.wf() && tail == v2.enc() {
                        let v2 = choose|v2: TxMetaVariant| v2.wf() && tail == v2.enc();
                        lemma_variant_enc_shape(v2);
                    }
                }
                return None;
            }
            proof {
                assert(TxMetaVariant::SatsOnly.enc() =~= tail);
            }
            Some(TxMetaVariant::SatsOnly)
        } else if tag == 1 {
            if n - at != 50 {
                proof {
                    if exists|v2: TxMetaVariant| v2.wf() && tail == v2.enc() {
                        let v2 = choose|v2: TxMetaVariant| v2.wf() && tail == v2.enc();
                        lemma_variant_enc_shape(v2);
                    }
                }
                return None;
            }
            let action = match SlpAction::decode_tag(src[at + 1]) {
                Some(a) => a,
                None => {
                    proof {
                        if exists|v2: TxMetaVariant| v2.wf() && tail == v2.enc() {
                            let v2 = choose|v2: TxMetaVariant| v2.wf() && tail == v2.enc();
                            lemma_variant_enc_shape(v2);
                        }
                    }
                    return None;
                },
            };
            let token_input = read_le64(src, at + 2);
            let token_output = read_le64(src, at + 10);
            let token_id = read_hash32(src, at + 18);
            let v = TxMetaVariant::Slp { action, token_input, token_output, token_id };
            proof {
                lemma_le64_decode_enc(tail.subrange(2, 10));
                lemma_le64_decode_enc(tail.subrange(10, 18));
                assert(src@.subrange(at + 2, at + 10) =~= tail.subrange(2, 10));
                assert(src@.subrange(at + 10, at + 18) =~= tail.subrange(10, 18));
                assert(src@.subrange(at + 18, at + 50) =~= tail.subrange(18, 50));
                assert(v.enc() =~= tail);
            }
            Some(v)
        } else if tag == 2 {
            if n - at < 13 {
                proof {
                    if exists|v2: TxMetaVariant| v2.wf() && tail == v2.enc() {
                        let v2 = choose|v2: TxMetaVariant| v2.wf() && tail == v2.enc();
                        lemma_variant_enc_shape(v2);
                    }
                }
                return None;
            }
            let id_len: u32 = read_le32(src, at + 1);
            let id_len_us: usize = id_len as usize;
            if n - at - 13 != id_len_us {
                proof {
                    if exists|v2: TxMetaVariant| v2.wf() && tail == v2.enc() {
                        let v2 = choose|v2: TxMetaVariant| v2.wf() && tail == v2.enc();
                        lemma_variant_enc_shape(v2);
                        let idlen2 = v2->InvalidSlp_token_id@.len();
                        lemma_le32_round_trip(idlen2 as u32);
                        assert(src@.subrange(at + 1, at + 5) =~= tail.subrange(1, 5));
                        assert(id_len == idlen2);
                    }
                }
                return None;
            }
            let token_id = read_vec(src, at + 5, id_len_us);
            let token_input = read_le64(src, at + 5 + id_len_us);
            let v = TxMetaVariant::InvalidSlp { token_id, token_input };
            proof {
                lemma_le32_decode_enc(tail.subrange(1, 5));
                lemma_le64_decode_enc(tail.subrange(5 + id_len as int, 13 + id_len as int));
                assert(src@.subrange(at + 1, at + 5) =~= tail.subrange(1, 5));
                assert(src@.subrange(at + 5, at + 5 + id_len as int) =~= tail.subrange(
                    5,
                    5 + id_len as int,
                ));
                assert(src@.subrange(at + 5 + id_len as int, at + 13 + id_len as int)
                    =~= tail.subrange(5 + id_len as int, 13 + id_len as int));
                assert(v.enc() =~= tail);
            }
            Some(v)
        } else {
            proof {
                if exists|v2: TxMetaVariant| v2.wf() && tail == v2.enc() {
                    let v2 = choose|v2: TxMetaVariant| v2.wf() && tail == v2.enc();
                    lemma_variant_enc_shape(v2);
                }
            }
            None
        }
    }
}


/// Shape facts of a variant encoding: the leading tag byte determines the
/// variant, and with it the length.
pub proof fn lemma_variant_enc_shape(v: TxMetaVariant)
    ensures
        v.enc().len() >= 1,
        v is SatsOnly ==> v.enc()[0] == 0 && v.enc().len() == 1,
        v is Slp ==> v.enc()[0] == 1 && v.enc().len() == 50 && v.enc()[1] == v->Slp_action.tag()
            && 1 <= v.enc()[1] <= 8,
        v is InvalidSlp ==> v.enc()[0] == 2 && v.enc().len() == 13 + v->InvalidSlp_token_id@.len()
            && v.enc().subrange(1, 5) =~= le32(v->InvalidSlp_token_id@.len() as u32),
{
    match v {
        TxMetaVariant::SatsOnly => {
        },
        TxMetaVariant::Slp { action, token_input, token_output, token_id } => {
            assert(v.enc()[0] == seq![1u8, action.tag()][0]);
            assert(v.enc()[1] == seq![1u8, action.tag()][1]);
        },
        TxMetaVariant::InvalidSlp { token_id, token_input } => {
            assert(v.enc()[0] == seq![2u8][0]);
            assert(v.enc().subrange(1, 5) =~= le32(token_id@.len() as u32));
        },
    }
}

proof fn witness_contradiction_empty(tail: Seq<u8>)
    requires
        tail.len() == 0,
    ensures
        !(exists|v2: TxMetaVariant| v2.wf() && tail == v2.enc()),
{
    if exists|v2: TxMetaVariant| v2.wf() && tail == v2.enc() {
        let v2 = choose|v2: TxMetaVariant| v2.wf() && tail == v2.enc();
        assert(v2.enc().len() >= 1);
    }
}

/// Field-level equality of variants; byte-string fields compare by content.
pub open spec fn variant_eq_view(a: TxMetaVariant, b: TxMetaVariant) -> bool {
    match (a, b) {
        (TxMetaVariant::SatsOnly, TxMetaVariant::SatsOnly) => true,
        (
            TxMetaVariant::Slp { action: aa, token_input: ai, token_output: ao, token_id: aid },
            TxMetaVariant::Slp { action: ba, token_input: bi, token_output: bo, token_id: bid },
        ) => aa == ba && ai == bi && ao == bo && aid == bid,
        (
            TxMetaVariant::InvalidSlp { token_id: aid, token_input: ai },
            TxMetaVariant::InvalidSlp { token_id: bid, token_input: bi },
        ) => aid@ == bid@ && ai == bi,
        _ => false,
    }
}

/// Variant encodings are injective (up to byte-string content).
pub proof fn lemma_variant_enc_injective(a: TxMetaVariant, b: TxMetaVariant)
    requires
        a.wf(),
        b.wf(),
        a.enc() == b.enc(),
    ensures
        variant_eq_view(a, b),
{
    lemma_variant_enc_shape(a);
    lemma_variant_enc_shape(b);
    match (a, b) {
        (
            TxMetaVariant::Slp { action: aa, token_input: ai, token_output: ao, token_id: aid },
            TxMetaVariant::Slp { action: ba, token_input: bi, token_output: bo, token_id: bid },
        ) => {
            assert(a.enc().subrange(2, 10) =~= le64(ai));
            assert(b.enc().subrange(2, 10) =~= le64(bi));
            assert(a.enc().subrange(10, 18) =~= le64(ao));
            assert(b.enc().subrange(10, 18) =~= le64(bo));
            assert(a.enc().subrange(18, 50) =~= aid@);
            assert(b.enc().subrange(18, 50) =~= bid@);
            lemma_le64_round_trip(ai);
            lemma_le64_round_trip(bi);
            lemma_le64_round_trip(ao);
            lemma_le64_round_trip(bo);
            lemma_slp_action_tag_injective(aa, ba);
            assert(aid == bid) by {
                broadcast use vstd::array::axiom_array_ext_equal;

                assert(aid@ =~= bid@);
            }
        },
        (
            TxMetaVariant::InvalidSlp { token_id: aid, token_input: ai },
            TxMetaVariant::InvalidSlp { token_id: bid, token_input: bi },
        ) => {
            assert(a.enc().subrange(1, 5) =~= le32(aid@.len() as u32));
            assert(b.enc().subrange(1, 5) =~= le32(bid@.len() as u32));
            lemma_le32_round_trip(aid@.len() as u32);
            lemma_le32_round_trip(bid@.len() as u32);
            assert(aid@.len() == bid@.len());
            let n = aid@.len() as int;
            assert(a.enc().subrange(5, 5 + n) =~= aid@);
            assert(b.enc().subrange(5, 5 + n) =~= bid@);
            assert(aid@ =~= bid@);
            assert(a.enc().subrange(5 + n, 13 + n) =~= le64(ai));
            assert(b.enc().subrange(5 + n, 13 + n) =~= le64(bi));
            lemma_le64_round_trip(ai);
            lemma_le64_round_trip(bi);
        },
        _ => {
        },
    }
}

/// Encoding of an optional 32-byte hash: presence tag, then the raw bytes.
pub open spec fn enc_opt_hash(o: Option<[u8; 32]>) -> Seq<u8> {
    match o {
        None => seq![0u8],
        Some(h) => seq![1u8] + h@,
    }
}

pub fn push_opt_hash(dst: &mut Vec<u8>, o: &Option<[u8; 32]>)
    ensures
        final(dst)@ =~= old(dst)@ + enc_opt_hash(*o),
{
    match o {
        None => {
            dst.push(0u8);
        },
        Some(h) => {
            dst.push(1u8);
            push_bytes(dst, h.as_slice());
        },
    }
}

/// Per-transaction metadata record, stored under the tx hash.
#[derive(Clone, PartialEq, Eq, Debug)]
pub struct TxMeta {
    pub block_height: i32,
    pub timestamp: i64,
    pub is_coinbase: bool,
    pub size: i32,
    pub num_inputs: u32,
    pub num_outputs: u32,
    pub sats_input: i64,
    pub sats_output: i64,
    pub variant: TxMetaVariant,
}

impl TxMeta {
    pub open spec fn wf(self) -> bool {
        self.variant.wf()
    }

    pub open spec fn enc(self) -> Seq<u8> {
        enc_i32(self.block_height) + enc_i64(self.timestamp) + enc_bool(self.is_coinbase)
            + enc_i32(self.size) + le32(self.num_inputs) + le32(self.num_outputs) + enc_i64(
            self.sats_input,
        ) + enc_i64(self.sats_output) + self.variant.enc()
    }

    pub fn encode(&self) -> (r: Vec<u8>)
        requires
            self.wf(),
        ensures
            r@ =~= self.enc(),
    {
        let mut v: Vec<u8> = Vec::new();
        push_i32(&mut v, self.block_height);
        push_i64(&mut v, self.timestamp);
        push_bool(&mut v, self.is_coinbase);
        push_i32(&mut v, self.size);
        push_le32(&mut v, self.num_inputs);
        push_le32(&mut v, self.num_outputs);
        push_i64(&mut v, self.sats_input);
        push_i64(&mut v, self.sats_output);
        self.variant.encode_onto(&mut v);
        v
    }

    pub fn decode(src: &[u8]) -> (r: Option<TxMeta>)
        ensures
            r matches Some(v) ==> v.wf() && v.enc() == src@,
            (exists|v2: TxMeta| v2.wf() && src@ == v2.enc()) ==> r is Some,
    {
        let n: usize = src.len();
        if n < 42 {
            proof {
                lemma_txmeta_no_witness_short(src@);
            }
            return None;
        }
        let block_height = read_i32(src, 0);
        let timestamp = read_i64(src, 4);
        let cb: u8 = src[12];
        if cb > 1 {
            proof {
                lemma_txmeta_no_witness_bool(src@);
            }
            return None;
        }
        let is_coinbase: bool = cb == 1;
        let size = read_i32(src, 13);
        let num_inputs = read_le32(src, 17);
        let num_outputs = read_le32(src, 21);
        let sats_input = read_i64(src, 25);
        let sats_output = read_i64(src, 33);
        let variant = match TxMetaVariant::decode_tail(src, 41) {
            Some(v) => v,
            None => {
                proof {
                    lemma_txmeta_no_witness_tail(src@);
                }
                return None;
            },
        };
        let v = TxMeta {
            block_height,
            timestamp,
            is_coinbase,
            size,
            num_inputs,
            num_outputs,
            sats_input,
            sats_output,
            variant,
        };
        proof {
            lemma_i32_decode_enc(src@.subrange(0, 4));
            lemma_i64_decode_enc(src@.subrange(4, 12));
            lemma_i32_decode_enc(src@.subrange(13, 17));
            lemma_le32_decode_enc(src@.subrange(17, 21));
            lemma_le32_decode_enc(src@.subrange(21, 25));
            lemma_i64_decode_enc(src@.subrange(25, 33));
            lemma_i64_decode_enc(src@.subrange(33, 41));
            assert(enc_bool(is_coinbase) =~= src@.subrange(12, 13));
            lemma_tx_meta_enc_assemble(v, src@);
            assert(v.enc() == src@);
        }
        Some(v)
    }
}

/// No tx record encodes to fewer than 42 bytes.
proof fn lemma_txmeta_no_witness_short(s: Seq<u8>)
    requires
        s.len() < 42,
    ensures
        !(exists|v2: TxMeta| v2.wf() && s == v2.enc()),
{
    if exists|v2: TxMeta| v2.wf() && s == v2.enc() {
        let v2 = choose|v2: TxMeta| v2.wf() && s == v2.enc();
        lemma_variant_enc_shape(v2.variant);
    }
}

/// Byte 12 of a tx record encoding is the coinbase flag, 0 or 1.
proof fn lemma_txmeta_no_witness_bool(s: Seq<u8>)
    requires
        s.len() >= 13,
        s[12] != 0,
        s[12] != 1,
    ensures
        !(exists|v2: TxMeta| v2.wf() && s == v2.enc()),
{
    if exists|v2: TxMeta| v2.wf() && s == v2.enc() {
        let v2 = choose|v2: TxMeta| v2.wf() && s == v2.enc();
        assert(v2.enc()[12] == enc_bool(v2.is_coinbase)[0]);
    }
}

/// The bytes past the fixed fields are exactly the variant encoding.
proof fn lemma_txmeta_no_witness_tail(s: Seq<u8>)
    requires
        s.len() >= 42,
        !(exists|vv: TxMetaVariant| vv.wf() && s.subrange(41, s.len() as int) == vv.enc()),
    ensures
        !(exists|v2: TxMeta| v2.wf() && s == v2.enc()),
{
    if exists|v2: TxMeta| v2.wf() && s == v2.enc() {
        let v2 = choose|v2: TxMeta| v2.wf() && s == v2.enc();
        assert(s.subrange(41, s.len() as int) =~= v2.variant.enc());
        assert(s.subrange(41, s.len() as int) == v2.variant.enc());
    }
}

/// Gluing the field encodings back together yields the whole record encoding.
proof fn lemma_tx_meta_enc_assemble(v: TxMeta, s: Seq<u8>)
    requires
        s.len() >= 42,
        enc_i32(v.block_height) == s.subrange(0, 4),
        enc_i64(v.timestamp) == s.subrange(4, 12),
        enc_bool(v.is_coinbase) == s.subrange(12, 13),
        enc_i32(v.size) == s.subrange(13, 17),
        le32(v.num_inputs) == s.subrange(17, 21),
        le32(v.num_outputs) == s.subrange(21, 25),
        enc_i64(v.sats_input) == s.subrange(25, 33),
        enc_i64(v.sats_output) == s.subrange(33, 41),
        v.variant.enc() == s.subrange(41, s.len() as int),
    ensures
        v.enc() =~= s,
{
    assert(v.enc() =~= s.subrange(0, 4) + s.subrange(4, 12) + s.subrange(12, 13) + s.subrange(
        13,
        17,
    ) + s.subrange(17, 21) + s.subrange(21, 25) + s.subrange(25, 33) + s.subrange(33, 41)
        + s.subrange(41, s.len() as int));
}

/// Field-level equality of tx records.
pub open spec fn tx_meta_eq_view(a: TxMeta, b: TxMeta) -> bool {
    &&& a.block_height == b.block_height
    &&& a.timestamp == b.timestamp
    &&& a.is_coinbase == b.is_coinbase
    &&& a.size == b.size
    &&& a.num_inputs == b.num_inputs
    &&& a.num_outputs == b.num_outputs
    &&& a.sats_input == b.sats_input
    &&& a.sats_output == b.sats_output
    &&& variant_eq_view(a.variant, b.variant)
}

/// Tx record encodings are injective (up to byte-string content).
pub proof fn lemma_tx_meta_enc_injective(a: TxMeta, b: TxMeta)
    requires
        a.wf(),
        b.wf(),
        a.enc() == b.enc(),
    ensures
        tx_meta_eq_view(a, b),
{
    lemma_variant_enc_shape(a.variant);
    lemma_variant_enc_shape(b.variant);
    assert(a.enc().subrange(0, 4) =~= enc_i32(a.block_height));
    assert(b.enc().subrange(0, 4) =~= enc_i32(b.block_height));
    assert(a.enc().subrange(4, 12) =~= enc_i64(a.timestamp));
    assert(b.enc().subrange(4, 12) =~= enc_i64(b.timestamp));
    assert(a.enc()[12] == enc_bool(a.is_coinbase)[0]);
    assert(b.enc()[12] == enc_bool(b.is_coinbase)[0]);
    assert(a.enc().subrange(13, 17) =~= enc_i32(a.size));
    assert(b.enc().subrange(13, 17) =~= enc_i32(b.size));
    assert(a.enc().subrange(17, 21) =~= le32(a.num_inputs));
    assert(b.enc().subrange(17, 21) =~= le32(b.num_inputs));
    assert(a.enc().subrange(21, 25) =~= le32(a.num_outputs));
    assert(b.enc().subrange(21, 25) =~= le32(b.num_outputs));
    assert(a.enc().subrange(25, 33) =~= enc_i64(a.sats_input));
    assert(b.enc().subrange(25, 33) =~= enc_i64(b.sats_input));
    assert(a.enc().subrange(33, 41) =~= enc_i64(a.sats_output));
    assert(b.enc().subrange(33, 41) =~= enc_i64(b.sats_output));
    assert(a.enc().subrange(41, a.enc().len() as int) =~= a.variant.enc());
    assert(b.enc().subrange(41, b.enc().len() as int) =~= b.variant.enc());
    lemma_i32_round_trip(a.block_height);
    lemma_i32_round_trip(b.block_height);
    lemma_i64_round_trip(a.timestamp);
    lemma_i64_round_trip(b.timestamp);
    lemma_i32_round_trip(a.size);
    lemma_i32_round_trip(b.size);
    lemma_le32_round_trip(a.num_inputs);
    lemma_le32_round_trip(b.num_inputs);
    lemma_le32_round_trip(a.num_outputs);
    lemma_le32_round_trip(b.num_outputs);
    lemma_i64_round_trip(a.sats_input);
    lemma_i64_round_trip(b.sats_input);
    lemma_i64_round_trip(a.sats_output);
    lemma_i64_round_trip(b.sats_output);
    lemma_variant_enc_injective(a.variant, b.variant);
}

/// One address's delta for one transaction, the value under an
/// address/tx key: received minus spent, in satoshis and token units.
#[derive(Clone, Copy, PartialEq, Eq, Structural, Debug)]
pub struct AddressTx {
    pub timestamp: i64,
    pub block_height: i32,
    pub delta_sats: i64,
    pub delta_tokens: i64,
}

impl AddressTx {
    pub open spec fn enc(self) -> Seq<u8> {
        enc_i64(self.timestamp) + enc_i32(self.block_height) + enc_i64(self.delta_sats) + enc_i64(
            self.delta_tokens,
        )
    }

    pub fn encode(&self) -> (r: Vec<u8>)
        ensures
            r@ =~= self.enc(),
    {
        let mut v: Vec<u8> = Vec::new();
        push_i64(&mut v, self.timestamp);
        push_i32(&mut v, self.block_height);
        push_i64(&mut v, self.delta_sats);
        push_i64(&mut v, self.delta_tokens);
        v
    }

    pub fn decode(src: &[u8]) -> (r: Option<AddressTx>)
        ensures
            r matches Some(v) ==> v.enc() =~= src@,
            r is Some <==> src@.len() == 28,
    {
        if src.len() != 28 {
            return None;
        }
        let timestamp = read_i64(src, 0);
        let block_height = read_i32(src, 8);
        let delta_sats = read_i64(src, 12);
        let delta_tokens = read_i64(src, 20);
        let v = AddressTx { timestamp, block_height, delta_sats, delta_tokens };
        proof {
            lemma_i64_decode_enc(src@.subrange(0, 8));
            lemma_i32_decode_enc(src@.subrange(8, 12));
            lemma_i64_decode_enc(src@.subrange(12, 20));
            lemma_i64_decode_enc(src@.subrange(20, 28));
            assert(v.enc() =~= src@);
        }
        Some(v)
    }
}

/// Every address record is 28 bytes, so decoding its own encoding succeeds
/// and is exact.
pub proof fn lemma_address_tx_round_trip(a: AddressTx)
    ensures
        a.enc().len() == 28,
        forall|b: AddressTx| b.enc() == a.enc() ==> a == b,
{
    assert forall|b: AddressTx| b.enc() == a.enc() implies a == b by {
        assert(a.enc().subrange(0, 8) =~= enc_i64(a.timestamp));
        assert(b.enc().subrange(0, 8) =~= enc_i64(b.timestamp));
        assert(a.enc().subrange(8, 12) =~= enc_i32(a.block_height));
        assert(b.enc().subrange(8, 12) =~= enc_i32(b.block_height));
        assert(a.enc().subrange(12, 20) =~= enc_i64(a.delta_sats));
        assert(b.enc().subrange(12, 20) =~= enc_i64(b.delta_sats));
        assert(a.enc().subrange(20, 28) =~= enc_i64(a.delta_tokens));
        assert(b.enc().subrange(20, 28) =~= enc_i64(b.delta_tokens));
        lemma_i64_round_trip(a.timestamp);
        lemma_i64_round_trip(b.timestamp);
        lemma_i32_round_trip(a.block_height);
        lemma_i32_round_trip(b.block_height);
        lemma_i64_round_trip(a.delta_sats);
        lemma_i64_round_trip(b.delta_sats);
        lemma_i64_round_trip(a.delta_tokens);
        lemma_i64_round_trip(b.delta_tokens);
    }
}

/// One unspent output, the value under an output key in the UTXO set.
#[derive(Clone, Copy, PartialEq, Eq, Debug)]
pub struct Utxo {
    pub sats_amount: i64,
    pub token_amount: u64,
    pub is_coinbase: bool,
    pub block_height: i32,
    pub token_id: Option<[u8; 32]>,
}

impl Utxo {
    pub open spec fn enc(self) -> Seq<u8> {
        enc_i64(self.sats_amount) + le64(self.token_amount) + enc_bool(self.is_coinbase) + enc_i32(
            self.block_height,
        ) + enc_opt_hash(self.token_id)
    }

    pub fn encode(&self) -> (r: Vec<u8>)
        ensures
            r@ =~= self.enc(),
    {
        let mut v: Vec<u8> = Vec::new();
        push_i64(&mut v, self.sats_amount);
        push_le64(&mut v, self.token_amount);
        push_bool(&mut v, self.is_coinbase);
        push_i32(&mut v, self.block_height);
        push_opt_hash(&mut v, &self.token_id);
        v
    }

    #[verifier::rlimit(60)]
    pub fn decode(src: &[u8]) -> (r: Option<Utxo>)
        ensures
            r matches Some(v) ==> v.enc() =~= src@,
            (exists|v2: Utxo| src@ == v2.enc()) ==> r is Some,
    {
        let n: usize = src.len();
        if n != 22 && n != 54 {
            proof {
                if exists|v2: Utxo| src@ == v2.enc() {
                    let v2 = choose|v2: Utxo| src@ == v2.enc();
                    assert(v2.enc().len() == 22 || v2.enc().len() == 54);
                }
            }
            return None;
        }
        let cb: u8 = src[16];
        if cb > 1 {
            proof {
                if exists|v2: Utxo| src@ == v2.enc() {
                    let v2 = choose|v2: Utxo| src@ == v2.enc();
                    assert(v2.enc()[16] == enc_bool(v2.is_coinbase)[0]);
                }
            }
            return None;
        }
        let tag: u8 = src[21];
        let token_id: Option<[u8; 32]> = if n == 22 {
            if tag != 0 {
                proof {
                    if exists|v2: Utxo| src@ == v2.enc() {
                        let v2 = choose|v2: Utxo| src@ == v2.enc();
                        assert(v2.enc()[21] == enc_opt_hash(v2.token_id)[0]);
                        assert(v2.token_id is None);
                    }
                }
                return None;
            }
            None
        } else {
            if tag != 1 {
                proof {
                    if exists|v2: Utxo| src@ == v2.enc() {
                        let v2 = choose|v2: Utxo| src@ == v2.enc();
                        assert(v2.enc()[21] == enc_opt_hash(v2.token_id)[0]);
                        assert(v2.token_id is Some);
                    }
                }
                return None;
            }
            Some(read_hash32(src, 22))
        };
        let sats_amount = read_i64(src, 0);
        let token_amount = read_le64(src, 8);
        let is_coinbase: bool = cb == 1;
        let block_height = read_i32(src, 17);
        let v = Utxo { sats_amount, token_amount, is_coinbase, block_height, token_id };
        proof {
            lemma_i64_decode_enc(src@.subrange(0, 8));
            lemma_le64_decode_enc(src@.subrange(8, 16));
            lemma_i32_decode_enc(src@.subrange(17, 21));
            assert(enc_bool(is_coinbase) =~= src@.subrange(16, 17));
            if n == 22 {
                assert(enc_opt_hash(token_id) =~= src@.subrange(21, 22));
            } else {
                assert(enc_opt_hash(token_id) =~= src@.subrange(21, 54));
            }
            assert(v.enc() =~= src@);
        }
        Some(v)
    }
}

/// Utxo record encodings are injective.
pub proof fn lemma_utxo_enc_injective(a: Utxo, b: Utxo)
    requires
        a.enc() == b.enc(),
    ensures
        a == b,
{
    assert(a.enc().subrange(0, 8) =~= enc_i64(a.sats_amount));
    assert(b.enc().subrange(0, 8) =~= enc_i64(b.sats_amount));
    assert(a.enc().subrange(8, 16) =~= le64(a.token_amount));
    assert(b.enc().subrange(8, 16) =~= le64(b.token_amount));
    assert(a.enc()[16] == enc_bool(a.is_coinbase)[0]);
    assert(b.enc()[16] == enc_bool(b.is_coinbase)[0]);
    assert(a.enc().subrange(17, 21) =~= enc_i32(a.block_height));
    assert(b.enc().subrange(17, 21) =~= enc_i32(b.block_height));
    lemma_i64_round_trip(a.sats_amount);
    lemma_i64_round_trip(b.sats_amount);
    lemma_le64_round_trip(a.token_amount);
    lemma_le64_round_trip(b.token_amount);
    lemma_i32_round_trip(a.block_height);
    lemma_i32_round_trip(b.block_height);
    assert(a.enc()[21] == enc_opt_hash(a.token_id)[0]);
    assert(b.enc()[21] == enc_opt_hash(b.token_id)[0]);
    match (a.token_id, b.token_id) {
        (Some(x), Some(y)) => {
            assert(a.enc().subrange(22, 54) =~= x@);
            assert(b.enc().subrange(22, 54) =~= y@);
            assert(x == y) by {
                broadcast use vstd::array::axiom_array_ext_equal;

                assert(x@ =~= y@);
            }
        },
        (None, None) => {
        },
        (Some(x), None) => {
            assert(a.enc()[21] == 1 && b.enc()[21] == 0);
        },
        (None, Some(y)) => {
            assert(a.enc()[21] == 0 && b.enc()[21] == 1);
        },
    }
}

/// Token metadata written at a valid GENESIS, stored under the token id.
/// `token_type` is `0x01` for type 1, `0x41` for an NFT1 child (which then
/// carries its group id), `0x81` for an NFT1 group.
#[derive(Clone, PartialEq, Eq, Debug)]
pub struct TokenMeta {
    pub token_type: u32,
    pub token_ticker: Vec<u8>,
    pub token_name: Vec<u8>,
    pub token_document_url: Vec<u8>,
    pub token_document_hash: Vec<u8>,
    pub decimals: u32,
    pub group_id: Option<[u8; 32]>,
}

impl TokenMeta {
    pub open spec fn wf(self) -> bool {
        &&& self.token_ticker@.len() <= u32::MAX
        &&& self.token_name@.len() <= u32::MAX
        &&& self.token_document_url@.len() <= u32::MAX
        &&& self.token_document_hash@.len() <= u32::MAX
    }

    /// Offset of the payload area: the header is the five integers, then the
    /// group-id presence tag and the optional group id.
    pub open spec fn base(self) -> int {
        25 + enc_opt_hash(self.group_id).len() - 1
    }

    /// Header with all four payload lengths at fixed offsets, then the
    /// payloads in order.
    pub open spec fn enc(self) -> Seq<u8> {
        le32(self.token_type) + le32(self.token_ticker@.len() as u32) + le32(
            self.token_name@.len() as u32,
        ) + le32(self.token_document_url@.len() as u32) + le32(
            self.token_document_hash@.len() as u32,
        ) + le32(self.decimals) + enc_opt_hash(self.group_id) + self.token_ticker@
            + self.token_name@ + self.token_document_url@ + self.token_document_hash@
    }

    pub fn encode(&self) -> (r: Vec<u8>)
        requires
            self.wf(),
        ensures
            r@ =~= self.enc(),
    {
        let mut v: Vec<u8> = Vec::new();
        push_le32(&mut v, self.token_type);
        push_le32(&mut v, self.token_ticker.len() as u32);
        push_le32(&mut v, self.token_name.len() as u32);
        push_le32(&mut v, self.token_document_url.len() as u32);
        push_le32(&mut v, self.token_document_hash.len() as u32);
        push_le32(&mut v, self.decimals);
        push_opt_hash(&mut v, &self.group_id);
        push_bytes(&mut v, self.token_ticker.as_slice());
        push_bytes(&mut v, self.token_name.as_slice());
        push_bytes(&mut v, self.token_document_url.as_slice());
        push_bytes(&mut v, self.token_document_hash.as_slice());
        v
    }

    pub fn decode(src: &[u8]) -> (r: Option<TokenMeta>)
        ensures
            r matches Some(v) ==> v.wf() && v.enc() == src@,
            (exists|v2: TokenMeta| v2.wf() && src@ == v2.enc()) ==> r is Some,
    {
        let n: usize = src.len();
        if n < 25 {
            proof {
                lemma_tokenmeta_no_witness(src@);
            }
            return None;
        }
        let token_type = read_le32(src, 0);
        let l1: usize = read_le32(src, 4) as usize;
        let l2: usize = read_le32(src, 8) as usize;
        let l3: usize = read_le32(src, 12) as usize;
        let l4: usize = read_le32(src, 16) as usize;
        let decimals = read_le32(src, 20);
        let tag: u8 = src[24];
        if tag > 1 {
            proof {
                lemma_tokenmeta_no_witness(src@);
            }
            return None;
        }
        let base: usize = if tag == 1 {
            57
        } else {
            25
        };
        if tag == 1 && n < 57 {
            proof {
                lemma_tokenmeta_no_witness(src@);
            }
            return None;
        }
        let group_id: Option<[u8; 32]> = if tag == 1 {
            Some(read_hash32(src, 25))
        } else {
            None
        };
        if l1 > n - base || l2 > n - base - l1 || l3 > n - base - l1 - l2 || n - base - l1 - l2
            - l3 != l4 {
            proof {
                lemma_tokenmeta_no_witness(src@);
            }
            return None;
        }
        let token_ticker = read_vec(src, base, l1);
        let token_name = read_vec(src, base + l1, l2);
        let token_document_url = read_vec(src, base + l1 + l2, l3);
        let token_document_hash = read_vec(src, base + l1 + l2 + l3, l4);
        let v = TokenMeta {
            token_type,
            token_ticker,
            token_name,
            token_document_url,
            token_document_hash,
            decimals,
            group_id,
        };
        proof {
            lemma_le32_decode_enc(src@.subrange(0, 4));
            lemma_le32_decode_enc(src@.subrange(4, 8));
            lemma_le32_decode_enc(src@.subrange(8, 12));
            lemma_le32_decode_enc(src@.subrange(12, 16));
            lemma_le32_decode_enc(src@.subrange(16, 20));
            lemma_le32_decode_enc(src@.subrange(20, 24));
            assert(enc_opt_hash(group_id) =~= src@.subrange(24, v.base()));
            lemma_tokenmeta_enc_assemble(v, src@);
            assert(v.enc() == src@);
        }
        Some(v)
    }
}

/// Shape facts of a token record encoding: the header pins the lengths, the
/// tag byte the group id's presence, and the total length follows.
proof fn lemma_tokenmeta_shape(v: TokenMeta)
    requires
        v.wf(),
    ensures
        v.enc().len() == v.base() + v.token_ticker@.len() + v.token_name@.len()
            + v.token_document_url@.len() + v.token_document_hash@.len(),
        v.base() == if v.group_id is Some {
            57int
        } else {
            25int
        },
        v.enc().subrange(4, 8) =~= le32(v.token_ticker@.len() as u32),
        v.enc().subrange(8, 12) =~= le32(v.token_name@.len() as u32),
        v.enc().subrange(12, 16) =~= le32(v.token_document_url@.len() as u32),
        v.enc().subrange(16, 20) =~= le32(v.token_document_hash@.len() as u32),
        v.enc()[24] == if v.group_id is Some {
            1u8
        } else {
            0u8
        },
{
    match v.group_id {
        Some(h) => {
            assert(v.enc()[24] == enc_opt_hash(v.group_id)[0]);
        },
        None => {
            assert(v.enc()[24] == enc_opt_hash(v.group_id)[0]);
        },
    }
}

/// Any counterexample to the decoder's checks contradicts being a token
/// record encoding.
proof fn lemma_tokenmeta_no_witness(s: Seq<u8>)
    ensures
        (exists|v2: TokenMeta| v2.wf() && s == v2.enc()) ==> {
            let v2 = choose|v2: TokenMeta| v2.wf() && s == v2.enc();
            s.len() >= 25 && (s[24] == 0 || s[24] == 1) && (s[24] == 1 ==> s.len() >= 57) && {
                let base = if s[24] == 1 {
                    57int
                } else {
                    25int
                };
                let l1 = le32_decode(s.subrange(4, 8)) as int;
                let l2 = le32_decode(s.subrange(8, 12)) as int;
                let l3 = le32_decode(s.subrange(12, 16)) as int;
                let l4 = le32_decode(s.subrange(16, 20)) as int;
                s.len() == base + l1 + l2 + l3 + l4
            }
        },
{
    if exists|v2: TokenMeta| v2.wf() && s == v2.enc() {
        let v2 = choose|v2: TokenMeta| v2.wf() && s == v2.enc();
        lemma_tokenmeta_shape(v2);
        lemma_le32_round_trip(v2.token_ticker@.len() as u32);
        lemma_le32_round_trip(v2.token_name@.len() as u32);
        lemma_le32_round_trip(v2.token_document_url@.len() as u32);
        lemma_le32_round_trip(v2.token_document_hash@.len() as u32);
    }
}

/// Gluing the token record's parts back together.
proof fn lemma_tokenmeta_enc_assemble(v: TokenMeta, s: Seq<u8>)
    requires
        v.wf(),
        25 <= v.base() <= s.len(),
        le32(v.token_type) == s.subrange(0, 4),
        le32(v.token_ticker@.len() as u32) == s.subrange(4, 8),
        le32(v.token_name@.len() as u32) == s.subrange(8, 12),
        le32(v.token_document_url@.len() as u32) == s.subrange(12, 16),
        le32(v.token_document_hash@.len() as u32) == s.subrange(16, 20),
        le32(v.decimals) == s.subrange(20, 24),
        enc_opt_hash(v.group_id) == s.subrange(24, v.base()),
        s.len() == v.base() + v.token_ticker@.len() + v.token_name@.len()
            + v.token_document_url@.len() + v.token_document_hash@.len(),
        v.token_ticker@ == s.subrange(v.base(), v.base() + v.token_ticker@.len()),
        v.token_name@ == s.subrange(
            v.base() + v.token_ticker@.len(),
            v.base() + v.token_ticker@.len() + v.token_name@.len(),
        ),
        v.token_document_url@ == s.subrange(
            v.base() + v.token_ticker@.len() + v.token_name@.len(),
            v.base() + v.token_ticker@.len() + v.token_name@.len() + v.token_document_url@.len(),
        ),
        v.token_document_hash@ == s.subrange(
            v.base() + v.token_ticker@.len() + v.token_name@.len() + v.token_document_url@.len(),
            s.len() as int,
        ),
    ensures
        v.enc() =~= s,
{
}

/// Per-block metadata record, stored under the block hash. The difficulty is
/// kept as the raw bit pattern of the node's floating-point figure; the
/// presentation layer turns it back into a number.
#[derive(Clone, PartialEq, Eq, Debug)]
pub struct BlockMeta {
    pub height: i32,
    pub version: i32,
    pub previous_block: [u8; 32],
    pub merkle_root: [u8; 32],
    pub timestamp: i64,
    pub bits: u32,
    pub nonce: u32,
    pub total_sats_input: i64,
    pub total_sats_output: i64,
    pub difficulty_bits: u64,
    pub median_time: i64,
    pub size: u64,
    pub num_txs: u64,
    pub coinbase_data: Vec<u8>,
}

impl BlockMeta {
    pub open spec fn wf(self) -> bool {
        self.coinbase_data@.len() <= u32::MAX
    }

    pub open spec fn enc(self) -> Seq<u8> {
        enc_i32(self.height) + enc_i32(self.version) + self.previous_block@ + self.merkle_root@
            + enc_i64(self.timestamp) + le32(self.bits) + le32(self.nonce) + enc_i64(
            self.total_sats_input,
        ) + enc_i64(self.total_sats_output) + le64(self.difficulty_bits) + enc_i64(
            self.median_time,
        ) + le64(self.size) + le64(self.num_txs) + le32(self.coinbase_data@.len() as u32)
            + self.coinbase_data@
    }

    pub fn encode(&self) -> (r: Vec<u8>)
        requires
            self.wf(),
        ensures
            r@ =~= self.enc(),
    {
        let mut v: Vec<u8> = Vec::new();
        push_i32(&mut v, self.height);
        push_i32(&mut v, self.version);
        push_bytes(&mut v, self.previous_block.as_slice());
        push_bytes(&mut v, self.merkle_root.as_slice());
        push_i64(&mut v, self.timestamp);
        push_le32(&mut v, self.bits);
        push_le32(&mut v, self.nonce);
        push_i64(&mut v, self.total_sats_input);
        push_i64(&mut v, self.total_sats_output);
        push_le64(&mut v, self.difficulty_bits);
        push_i64(&mut v, self.median_time);
        push_le64(&mut v, self.size);
        push_le64(&mut v, self.num_txs);
        push_le32(&mut v, self.coinbase_data.len() as u32);
        push_bytes(&mut v, self.coinbase_data.as_slice());
        v
    }

    pub fn decode(src: &[u8]) -> (r: Option<BlockMeta>)
        ensures
            r matches Some(v) ==> v.wf() && v.enc() == src@,
            (exists|v2: BlockMeta| v2.wf() && src@ == v2.enc()) ==> r is Some,
    {
        let n: usize = src.len();
        if n < 140 {
            proof {
                lemma_blockmeta_no_witness(src@);
            }
            return None;
        }
        let cb_len: usize = read_le32(src, 136) as usize;
        if n - 140 != cb_len {
            proof {
                lemma_blockmeta_no_witness(src@);
            }
            return None;
        }
        let height = read_i32(src, 0);
        let version = read_i32(src, 4);
        let previous_block = read_hash32(src, 8);
        let merkle_root = read_hash32(src, 40);
        let timestamp = read_i64(src, 72);
        let bits = read_le32(src, 80);
        let nonce = read_le32(src, 84);
        let total_sats_input = read_i64(src, 88);
        let total_sats_output = read_i64(src, 96);
        let difficulty_bits = read_le64(src, 104);
        let median_time = read_i64(src, 112);
        let size = read_le64(src, 120);
        let num_txs = read_le64(src, 128);
        let coinbase_data = read_vec(src, 140, cb_len);
        let v = BlockMeta {
            height,
            version,
            previous_block,
            merkle_root,
            timestamp,
            bits,
            nonce,
            total_sats_input,
            total_sats_output,
            difficulty_bits,
            median_time,
            size,
            num_txs,
            coinbase_data,
        };
        proof {
            lemma_i32_decode_enc(src@.subrange(0, 4));
            lemma_i32_decode_enc(src@.subrange(4, 8));
            lemma_i64_decode_enc(src@.subrange(72, 80));
            lemma_le32_decode_enc(src@.subrange(80, 84));
            lemma_le32_decode_enc(src@.subrange(84, 88));
            lemma_i64_decode_enc(src@.subrange(88, 96));
            lemma_i64_decode_enc(src@.subrange(96, 104));
            lemma_le64_decode_enc(src@.subrange(104, 112));
            lemma_i64_decode_enc(src@.subrange(112, 120));
            lemma_le64_decode_enc(src@.subrange(120, 128));
            lemma_le64_decode_enc(src@.subrange(128, 136));
            lemma_le32_decode_enc(src@.subrange(136, 140));
            lemma_blockmeta_enc_assemble(v, src@);
            assert(v.enc() == src@);
        }
        Some(v)
    }
}

/// Any counterexample to the decoder's checks contradicts being a block
/// record encoding.
proof fn lemma_blockmeta_no_witness(s: Seq<u8>)
    ensures
        (exists|v2: BlockMeta| v2.wf() && s == v2.enc()) ==> s.len() >= 140 && s.len() == 140
            + le32_decode(s.subrange(136, 140)) as int,
{
    if exists|v2: BlockMeta| v2.wf() && s == v2.enc() {
        let v2 = choose|v2: BlockMeta| v2.wf() && s == v2.enc();
        assert(s.subrange(136, 140) =~= le32(v2.coinbase_data@.len() as u32));
        lemma_le32_round_trip(v2.coinbase_data@.len() as u32);
    }
}

/// Gluing the block record's parts back together.
#[verifier::rlimit(50)]
proof fn lemma_blockmeta_enc_assemble(v: BlockMeta, s: Seq<u8>)
    requires
        v.wf(),
        s.len() == 140 + v.coinbase_data@.len(),
        enc_i32(v.height) == s.subrange(0, 4),
        enc_i32(v.version) == s.subrange(4, 8),
        v.previous_block@ == s.subrange(8, 40),
        v.merkle_root@ == s.subrange(40, 72),
        enc_i64(v.timestamp) == s.subrange(72, 80),
        le32(v.bits) == s.subrange(80, 84),
        le32(v.nonce) == s.subrange(84, 88),
        enc_i64(v.total_sats_input) == s.subrange(88, 96),
        enc_i64(v.total_sats_output) == s.subrange(96, 104),
        le64(v.difficulty_bits) == s.subrange(104, 112),
        enc_i64(v.median_time) == s.subrange(112, 120),
        le64(v.size) == s.subrange(120, 128),
        le64(v.num_txs) == s.subrange(128, 136),
        le32(v.coinbase_data@.len() as u32) == s.subrange(136, 140),
        v.coinbase_data@ == s.subrange(140, s.len() as int),
    ensures
        v.enc() =~= s,
{
}

/// Token summary used by the presentation layer.
#[derive(Clone, PartialEq, Eq, Debug)]
pub struct Token {
    pub token_type: u32,
    pub token_ticker: Vec<u8>,
    pub token_name: Vec<u8>,
    pub decimals: u32,
    pub group_id: Option<[u8; 32]>,
}

/// The fixed 80-byte block header in its on-the-wire layout:
/// `version:i32[LE] || prev[32] || merkle[32] || ts:u32[LE] || bits:u32[LE] || nonce:u32[LE]`.
#[derive(Clone, Copy, PartialEq, Eq, Debug)]
pub struct BlockHeader {
    pub version: i32,
    pub previous_block: [u8; 32],
    pub merkle_root: [u8; 32],
    pub timestamp: u32,
    pub bits: u32,
    pub nonce: u32,
}

impl BlockHeader {
    pub open spec fn enc(self) -> Seq<u8> {
        enc_i32(self.version) + self.previous_block@ + self.merkle_root@ + le32(self.timestamp)
            + le32(self.bits) + le32(self.nonce)
    }

    /// The 80 wire bytes of the header.
    pub fn to_wire_bytes(&self) -> (r: Vec<u8>)
        ensures
            r@ =~= self.enc(),
            r@.len() == 80,
    {
        let mut v: Vec<u8> = Vec::new();
        push_i32(&mut v, self.version);
        push_bytes(&mut v, self.previous_block.as_slice());
        push_bytes(&mut v, self.merkle_root.as_slice());
        push_le32(&mut v, self.timestamp);
        push_le32(&mut v, self.bits);
        push_le32(&mut v, self.nonce);
        v
    }
}

} // verus!