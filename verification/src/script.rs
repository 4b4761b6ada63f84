//! Script classification: which destination an output script pays to.
//!
//! Only the two standard address shapes are indexed by address; pay-to-pubkey,
//! nulldata and unrecognised scripts are classified but carry no address.

use vstd::prelude::*;

use crate::keys::{AddrKeyPrefix, read_hash20};

verus! {

pub const OP_DUP: u8 = 0x76;

pub const OP_HASH160: u8 = 0xa9;

pub const OP_EQUALVERIFY: u8 = 0x88;

pub const OP_CHECKSIG: u8 = 0xac;

pub const OP_EQUAL: u8 = 0x87;

pub const OP_RETURN: u8 = 0x6a;

/// Address type byte for pay-to-pubkey-hash.
pub const ADDR_TYPE_P2PKH: u8 = 0;

/// Address type byte for pay-to-script-hash.
pub const ADDR_TYPE_P2SH: u8 = 1;

/// Spec-level destination of a script.
pub enum ScriptClass {
    /// An indexable address: type byte and 160-bit hash.
    Address(u8, Seq<u8>),
    /// Pay directly to this public key.
    PubKey(Seq<u8>),
    /// Provably unspendable data carrier; the payload follows the opcode.
    Nulldata(Seq<u8>),
    /// Anything else, kept verbatim.
    Unknown(Seq<u8>),
}

/// `OP_DUP OP_HASH160 <20:hash> OP_EQUALVERIFY OP_CHECKSIG`
pub open spec fn is_p2pkh(s: Seq<u8>) -> bool {
    s.len() == 25 && s[0] == OP_DUP && s[1] == OP_HASH160 && s[2] == 20 && s[23] == OP_EQUALVERIFY
        && s[24] == OP_CHECKSIG
}

/// `OP_HASH160 <20:hash> OP_EQUAL`
pub open spec fn is_p2sh(s: Seq<u8>) -> bool {
    s.len() == 23 && s[0] == OP_HASH160 && s[1] == 20 && s[22] == OP_EQUAL
}

/// `<33|65:pubkey> OP_CHECKSIG`
pub open spec fn is_p2pk(s: Seq<u8>) -> bool {
    (s.len() == 35 && s[0] == 33 && s[34] == OP_CHECKSIG) || (s.len() == 67 && s[0] == 65 && s[66]
        == OP_CHECKSIG)
}

pub open spec fn is_nulldata(s: Seq<u8>) -> bool {
    s.len() >= 1 && s[0] == OP_RETURN
}

/// The classification of a raw output script.
pub open spec fn classify_script(s: Seq<u8>) -> ScriptClass {
    if is_p2pkh(s) {
        ScriptClass::Address(ADDR_TYPE_P2PKH, s.subrange(3, 23))
    } else if is_p2sh(s) {
        ScriptClass::Address(ADDR_TYPE_P2SH, s.subrange(2, 22))
    } else if is_p2pk(s) {
        ScriptClass::PubKey(s.subrange(1, s.len() - 1))
    } else if is_nulldata(s) {
        ScriptClass::Nulldata(s.skip(1))
    } else {
        ScriptClass::Unknown(s)
    }
}

/// The address a script pays to, if it has one.
pub open spec fn script_address(s: Seq<u8>) -> Option<AddrKeyPrefix> {
    if is_p2pkh(s) {
        Some(AddrKeyPrefix { addr_type: ADDR_TYPE_P2PKH, addr_hash: classify_hash_arb(s) })
    } else if is_p2sh(s) {
        Some(AddrKeyPrefix { addr_type: ADDR_TYPE_P2SH, addr_hash: classify_hash_arb(s) })
    } else {
        None
    }
}

/// The 20-byte array holding the script's address hash. Stated by its view,
/// since an array cannot be assembled from a sequence directly.
pub open spec fn classify_hash_arb(s: Seq<u8>) -> [u8; 20] {
    choose|h: [u8; 20]| h@ == script_hash_bytes(s)
}

/// The hash slice of an address-carrying script.
pub open spec fn script_hash_bytes(s: Seq<u8>) -> Seq<u8> {
    if is_p2pkh(s) {
        s.subrange(3, 23)
    } else {
        s.subrange(2, 22)
    }
}

/// Executable destination of a script.
#[derive(Clone, PartialEq, Eq, Debug)]
pub enum Destination {
    /// An address the index tracks.
    Address(AddrKeyPrefix),
    /// Pay-to-pubkey: the raw public key.
    P2PK(Vec<u8>),
    /// Data carrier payload after the opcode.
    Nulldata(Vec<u8>),
    /// Unrecognised script, verbatim.
    Unknown(Vec<u8>),
}

/// Classify a raw script. Only the two address shapes produce an address.
pub fn destination_from_script(script: &[u8]) -> (r: Destination)
    ensures
        r matches Destination::Address(a) ==> script_address(script@) matches Some(a2)
            && a.addr_type == a2.addr_type && a.addr_hash@ == script_hash_bytes(script@),
        r is Address <==> script_address(script@) is Some,
        r matches Destination::P2PK(pk) ==> is_p2pk(script@) && pk@ == script@.subrange(
            1,
            script@.len() - 1,
        ),
        r matches Destination::Nulldata(d) ==> is_nulldata(script@) && d@ == script@.skip(1),
        r matches Destination::Unknown(u) ==> u@ == script@ && !is_p2pkh(script@) && !is_p2sh(
            script@,
        ) && !is_p2pk(script@) && !is_nulldata(script@),
{
    let n: usize = script.len();
    if n == 25 && script[0] == OP_DUP && script[1] == OP_HASH160 && script[2] == 20 && script[23]
        == OP_EQUALVERIFY && script[24] == OP_CHECKSIG {
        let hash = read_hash20(script, 3);
        Destination::Address(AddrKeyPrefix { addr_type: ADDR_TYPE_P2PKH, addr_hash: hash })
    } else if n == 23 && script[0] == OP_HASH160 && script[1] == 20 && script[22] == OP_EQUAL {
        let hash = read_hash20(script, 2);
        Destination::Address(AddrKeyPrefix { addr_type: ADDR_TYPE_P2SH, addr_hash: hash })
    } else if (n == 35 && script[0] == 33 && script[34] == OP_CHECKSIG) || (n == 67 && script[0]
        == 65 && script[66] == OP_CHECKSIG) {
        let pk = crate::codec::read_vec(script, 1, n - 2);
        Destination::P2PK(pk)
    } else if n >= 1 && script[0] == OP_RETURN {
        let d = crate::codec::read_vec(script, 1, n - 1);
        proof {
            assert(d@ =~= script@.skip(1));
        }
        Destination::Nulldata(d)
    } else {
        let u = crate::codec::read_vec(script, 0, n);
        proof {
            assert(u@ =~= script@);
        }
        Destination::Unknown(u)
    }
}

/// The address of an output script, if it classifies as one.
pub fn script_to_address(script: &[u8]) -> (r: Option<AddrKeyPrefix>)
    ensures
        r is Some <==> script_address(script@) is Some,
        r matches Some(a) ==> a.addr_type == script_address(script@)->0.addr_type && a.addr_hash@
            == script_hash_bytes(script@),
{
    match destination_from_script(script) {
        Destination::Address(a) => Some(a),
        _ => None,
    }
}

} // verus!
