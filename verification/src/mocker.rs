//! Deterministic-shape mock chain data for development setups: blocks whose
//! transactions carry a random token genesis, paying a random
//! pay-to-pubkey-hash script. Randomness and hashing come from outside
//! crates behind trusted wrappers; everything assembled from them is
//! verified.

use vstd::prelude::*;

use crate::chain::{Block, BlockInfo, Transaction, TransactionData, TxidsOrTxs, TxInput, TxOutput,
    Outpoint, SlpToken, SlpTransactionInfo, SlpTxAction, SlpValidity, TxMetadata, GenesisInfo};
use crate::script::{OP_DUP, OP_HASH160, OP_EQUALVERIFY, OP_CHECKSIG};

verus! {

/// Relies on `rand::thread_rng` / `Rng::sample_iter` with `Alphanumeric`
/// and `sha2::Sha256`: a digest of seven random alphanumeric characters.
/// Nothing is promised of the value beyond its length.
#[verifier::external_body]
pub fn generate_random_sha256() -> (r: [u8; 32])
{
    let s: String = rand::Rng::sample_iter(rand::thread_rng(), &rand::distributions::Alphanumeric)
        .take(7).map(char::from).collect();
    let mut hasher = <sha2::Sha256 as sha2::Digest>::new();
    sha2::Digest::update(&mut hasher, s);
    let out = <sha2::Sha256 as sha2::Digest>::finalize(hasher);
    let mut r = [0u8; 32];
    r.copy_from_slice(out.as_slice());
    r
}

/// Relies on `rand::Rng::gen_range`: a byte below 255.
#[verifier::external_body]
fn random_byte() -> (r: u8)
    ensures
        r < 255,
{
    rand::Rng::gen_range(&mut rand::thread_rng(), 0..255)
}

/// Relies on `rand::Rng::gen_range`: an index into the eight fixed token
/// name/ticker pairs.
#[verifier::external_body]
fn random_name_index() -> (r: usize)
    ensures
        r < 8,
{
    rand::Rng::gen_range(&mut rand::thread_rng(), 0..8)
}

/// The byte content of a short string; anything longer than a pool entry
/// comes back empty.
fn str_bytes(s: &str) -> (r: Vec<u8>)
    ensures
        r@.len() <= 32,
{
    let b: &[u8] = s.as_bytes();
    if b.len() <= 32 {
        crate::codec::read_vec(b, 0, b.len())
    } else {
        Vec::new()
    }
}

/// A token name and ticker drawn from the fixed pool of eight pairs.
pub fn pick_random_slp_name_ticker_pair() -> (r: (Vec<u8>, Vec<u8>))
    ensures
        r.0@.len() <= 32,
        r.1@.len() <= 32,
{
    let idx = random_name_index();
    match idx {
        0usize => (str_bytes("HONK HONK"), str_bytes("HONK")),
        1usize => (str_bytes("MIST"), str_bytes("MIST")),
        2usize => (str_bytes("Mint"), str_bytes("MINT")),
        3usize => (str_bytes("Spice"), str_bytes("SPICE")),
        4usize => (str_bytes("MAZE"), str_bytes("MAZE")),
        5usize => (str_bytes("HonestCoin"), str_bytes("USDH")),
        6usize => (str_bytes("Tether USDt"), str_bytes("USDt")),
        _ => (str_bytes("flexUSD"), str_bytes("flexUSD")),
    }
}

/// A pay-to-pubkey-hash script whose 20 hash bytes all repeat one random
/// byte.
pub fn generate_script() -> (r: Vec<u8>)
    ensures
        crate::script::is_p2pkh(r@),
{
    let b: u8 = random_byte();
    let mut script: Vec<u8> = Vec::new();
    script.push(OP_DUP);
    script.push(OP_HASH160);
    script.push(20);
    let mut i: usize = 0;
    while i < 20
        invariant
            0 <= i <= 20,
            script@.len() == 3 + i,
            script@[0] == OP_DUP && script@[1] == OP_HASH160 && script@[2] == 20,
        decreases 20 - i,
    {
        script.push(b);
        i = i + 1;
    }
    script.push(OP_EQUALVERIFY);
    script.push(OP_CHECKSIG);
    script
}

/// One mock transaction: a valid type-1 genesis under a random token id
/// with a name drawn from the fixed pool, two inputs (the second carrying
/// tokens) and one address-carrying output.
pub fn generate_transaction(height: i32, block_hash: &Vec<u8>) -> (r: Transaction)
    ensures
        r.block_height == height,
        crate::schema::tx_checked(r),
        r.inputs@.len() == 2,
        r.outputs@.len() == 1,
        crate::script::script_address(r.outputs@[0].pubkey_script@) is Some,
        r.inputs@[0].value == 123456 && r.inputs@[0].slp_token is None,
        r.inputs@[1].value == 123456 && (r.inputs@[1].slp_token matches Some(t) && t.amount == 12),
        r.outputs@[0].value == 123456 && (r.outputs@[0].slp_token matches Some(t) && t.amount
            == 12),
        r.size == 123456,
        r.timestamp == 1636076932,
        r.slp_transaction_info matches Some(info) && info.validity_judgement == SlpValidity::Valid
            && info.slp_action == SlpTxAction::SlpV1Genesis && info.token_id@.len() == 32 && (
        info.tx_metadata matches Some(TxMetadata::V1Genesis(g)) && g.decimals == 2),
{
    let token_id = generate_random_sha256();
    let token_id_vec = crate::codec::read_vec(token_id.as_slice(), 0, 32);
    let (name, ticker) = pick_random_slp_name_ticker_pair();
    let tx_metadata = TxMetadata::V1Genesis(
        GenesisInfo {
            name,
            ticker,
            document_url: Vec::new(),
            document_hash: Vec::new(),
            decimals: 2,
            group_token_id: Vec::new(),
        },
    );
    let slp_token = SlpToken { amount: 12, is_mint_baton: false };
    let slp_transaction_info = SlpTransactionInfo {
        slp_action: SlpTxAction::SlpV1Genesis,
        validity_judgement: SlpValidity::Valid,
        token_id: token_id_vec,
        tx_metadata: Some(tx_metadata),
    };
    let input = TxInput {
        outpoint: Some(Outpoint { hash: generate_random_sha256(), index: 0 }),
        signature_script: Vec::new(),
        value: 123456,
        previous_script: Vec::new(),
        slp_token: None,
    };
    let input2 = TxInput {
        outpoint: Some(Outpoint { hash: generate_random_sha256(), index: 0 }),
        signature_script: Vec::new(),
        value: 123456,
        previous_script: Vec::new(),
        slp_token: Some(slp_token),
    };
    let output = TxOutput {
        value: 123456,
        pubkey_script: generate_script(),
        slp_token: Some(slp_token),
    };
    let mut inputs: Vec<TxInput> = Vec::new();
    inputs.push(input);
    inputs.push(input2);
    let mut outputs: Vec<TxOutput> = Vec::new();
    outputs.push(output);
    // the tx model carries no block hash of its own; the parameter stays for
    // callers that thread it through
    let _unused: &Vec<u8> = block_hash;
    Transaction {
        hash: generate_random_sha256(),
        inputs,
        outputs,
        size: 123456,
        timestamp: 1636076932,
        block_height: height,
        slp_transaction_info: Some(slp_transaction_info),
    }
}

/// Wrap a transaction as one fetched block slot.
pub fn generate_transaction_data(transaction: Transaction) -> (r: TransactionData)
    ensures
        crate::schema::spec_td_ok(r),
        crate::schema::spec_tx_of(r) == transaction,
{
    TransactionData { txids_or_txs: Some(TxidsOrTxs::Transaction(transaction)) }
}

/// One mock block at a height, wrapping the given transaction slots. The
/// difficulty field carries the bit pattern of the figure 1.0.
pub fn generate_block(height: i32, block_hash: &Vec<u8>, transactions: Vec<TransactionData>) -> (r:
    Block)
    requires
        block_hash@.len() == 32,
    ensures
        r.info matches Some(info) && info.height == height && info.hash@ == block_hash@
            && info.version == 0 && info.timestamp == 1636076932 && info.bits == 2 && info.nonce
            == 123456 && info.difficulty_bits == 4607182418800017408 && info.median_time == 123456
            && info.size == 123456 && (forall|j: int|
            0 <= j < 32 ==> info.previous_block@[j] == 0 && info.merkle_root@[j] == 0),
        r.transaction_data == transactions,
{
    let hash = crate::keys::read_hash32(block_hash.as_slice(), 0);
    let info = BlockInfo {
        hash,
        height,
        version: 0,
        previous_block: [0u8; 32],
        merkle_root: [0u8; 32],
        timestamp: 1636076932,
        bits: 2,
        nonce: 123456,
        difficulty_bits: 4607182418800017408,
        median_time: 123456,
        size: 123456,
    };
    Block { info: Some(info), transaction_data: transactions }
}

} // verus!
