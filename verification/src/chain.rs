//! The library's model of the chain data handed over by the node:
//! transactions with their inputs, outputs and SLP annotations, and blocks
//! with their header info. The node client deals in its own wire types; the
//! boundary converts them into these plain values.

use vstd::prelude::*;

verus! {

/// Reference to the output spent by an input.
#[derive(Clone, Copy, PartialEq, Eq, Debug)]
pub struct Outpoint {
    pub hash: [u8; 32],
    pub index: u32,
}

/// SLP annotation of one input or output.
#[derive(Clone, Copy, PartialEq, Eq, Structural, Debug)]
pub struct SlpToken {
    pub amount: u64,
    pub is_mint_baton: bool,
}

/// One transaction input.
#[derive(Clone, PartialEq, Eq, Debug)]
pub struct TxInput {
    pub outpoint: Option<Outpoint>,
    pub signature_script: Vec<u8>,
    pub value: i64,
    pub previous_script: Vec<u8>,
    pub slp_token: Option<SlpToken>,
}

/// One transaction output.
#[derive(Clone, PartialEq, Eq, Debug)]
pub struct TxOutput {
    pub value: i64,
    pub pubkey_script: Vec<u8>,
    pub slp_token: Option<SlpToken>,
}

/// The node's judgement of an SLP transaction.
#[derive(Clone, Copy, PartialEq, Eq, Structural, Debug)]
pub enum SlpValidity {
    UnknownOrInvalid,
    Valid,
}

/// The node's parse of the SLP action carried by a transaction, including
/// the non-action cases.
#[derive(Clone, Copy, PartialEq, Eq, Structural, Debug)]
pub enum SlpTxAction {
    NonSlp,
    NonSlpBurn,
    SlpParseError,
    SlpUnsupportedVersion,
    SlpV1Genesis,
    SlpV1Mint,
    SlpV1Send,
    SlpV1Nft1GroupGenesis,
    SlpV1Nft1GroupMint,
    SlpV1Nft1GroupSend,
    SlpV1Nft1UniqueChildGenesis,
    SlpV1Nft1UniqueChildSend,
}

/// Genesis metadata attached to a GENESIS transaction.
#[derive(Clone, PartialEq, Eq, Debug)]
pub struct GenesisInfo {
    pub ticker: Vec<u8>,
    pub name: Vec<u8>,
    pub document_url: Vec<u8>,
    pub document_hash: Vec<u8>,
    pub decimals: u32,
    pub group_token_id: Vec<u8>,
}

/// Action-specific metadata of an SLP transaction.
#[derive(Clone, PartialEq, Eq, Debug)]
pub enum TxMetadata {
    V1Genesis(GenesisInfo),
    V1Nft1ChildGenesis(GenesisInfo),
}

/// The SLP annotation of one transaction.
#[derive(Clone, PartialEq, Eq, Debug)]
pub struct SlpTransactionInfo {
    pub slp_action: SlpTxAction,
    pub validity_judgement: SlpValidity,
    pub token_id: Vec<u8>,
    pub tx_metadata: Option<TxMetadata>,
}

/// One transaction as handed over by the node.
#[derive(Clone, PartialEq, Eq, Debug)]
pub struct Transaction {
    pub hash: [u8; 32],
    pub inputs: Vec<TxInput>,
    pub outputs: Vec<TxOutput>,
    pub size: i32,
    pub timestamp: i64,
    pub block_height: i32,
    pub slp_transaction_info: Option<SlpTransactionInfo>,
}

/// Block header info as handed over by the node. The difficulty figure is
/// carried as its raw floating-point bit pattern.
#[derive(Clone, Copy, PartialEq, Eq, Debug)]
pub struct BlockInfo {
    pub hash: [u8; 32],
    pub height: i32,
    pub version: i32,
    pub previous_block: [u8; 32],
    pub merkle_root: [u8; 32],
    pub timestamp: i64,
    pub bits: u32,
    pub nonce: u32,
    pub difficulty_bits: u64,
    pub median_time: i64,
    pub size: i32,
}

/// Either just a tx hash or a whole transaction, as a block fetch may carry
/// one or the other.
#[derive(Clone, PartialEq, Eq, Debug)]
pub enum TxidsOrTxs {
    TransactionHash([u8; 32]),
    Transaction(Transaction),
}

#[derive(Clone, PartialEq, Eq, Debug)]
pub struct TransactionData {
    pub txids_or_txs: Option<TxidsOrTxs>,
}

/// One block with its transactions.
#[derive(Clone, PartialEq, Eq, Debug)]
pub struct Block {
    pub info: Option<BlockInfo>,
    pub transaction_data: Vec<TransactionData>,
}

/// The all-zero outpoint hash marking a coinbase input.
pub open spec fn spec_is_coinbase(o: Outpoint) -> bool {
    (forall|i: int| 0 <= i < 32 ==> o.hash@[i] == 0) && o.index == 0xffff_ffff
}

/// A coinbase input is recognised by its null outpoint: an all-zero previous
/// hash and the maximal output index.
pub fn is_coinbase(outpoint: &Outpoint) -> (r: bool)
    ensures
        r == spec_is_coinbase(*outpoint),
{
    if outpoint.index != 0xffff_ffff {
        return false;
    }
    let mut i: usize = 0;
    while i < 32
        invariant
            0 <= i <= 32,
            forall|j: int| 0 <= j < i ==> outpoint.hash@[j] == 0,
        decreases 32 - i,
    {
        if outpoint.hash[i] != 0 {
            return false;
        }
        i = i + 1;
    }
    true
}

} // verus!
