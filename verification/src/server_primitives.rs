//! Plain data carried between the index and its presentation layer: the
//! JSON-facing shapes, the page shells, and the server's error value. The
//! presentation layer owns serialization and rendering; here these are bare
//! values the verified queries can fill.

use vstd::prelude::*;

use crate::hexstr::{hex_of, to_le_hex};
use crate::records::TokenMeta;

verus! {

/// Run mode of a deployment.
#[derive(Clone, Copy, PartialEq, Eq, Structural, Debug)]
pub enum Modes {
    Production,
    Development,
}

/// The error value handed to the HTTP layer.
pub struct ServerError {
    pub message: String,
}

/// Wrap a message as a server error.
pub fn to_server_error(message: String) -> (r: ServerError)
    ensures
        r.message@ == message@,
{
    ServerError { message }
}

pub struct JsonUtxo {
    pub tx_hash: String,
    pub out_idx: u32,
    pub sats_amount: i64,
    pub token_amount: u64,
    pub is_coinbase: bool,
    pub block_height: i32,
}

pub struct JsonBalance {
    pub token_idx: Option<usize>,
    pub sats_amount: i64,
    pub token_amount: u64,
    pub utxos: Vec<JsonUtxo>,
}

pub struct JsonToken {
    pub token_id: String,
    pub token_type: u32,
    pub token_ticker: Vec<u8>,
    pub token_name: Vec<u8>,
    pub decimals: u32,
    pub group_id: Option<String>,
}

impl JsonToken {
    /// Build the JSON-facing token summary: ids in plain hex, names as raw
    /// bytes for the presentation layer to escape.
    pub fn from_token_meta(token_id: &[u8], token_meta: TokenMeta) -> (r: JsonToken)
        ensures
            r.token_id@ == hex_of(token_id@),
            r.token_type == token_meta.token_type,
            r.token_ticker@ == token_meta.token_ticker@,
            r.token_name@ == token_meta.token_name@,
            r.decimals == token_meta.decimals,
            r.group_id matches Some(g) ==> token_meta.group_id matches Some(gid) && g@ == hex_of(
                gid@,
            ),
            r.group_id is Some <==> token_meta.group_id is Some,
    {
        let group_id: Option<String> = match &token_meta.group_id {
            Some(gid) => {
                let rev = reverse_of(gid.as_slice());
                Some(to_le_hex(rev.as_slice()))
            },
            None => None,
        };
        proof {
            match token_meta.group_id {
                Some(gid) => {
                    assert(reverse_of_spec(gid@).reverse() =~= gid@);
                },
                None => {
                },
            }
        }
        let rev = reverse_of(token_id);
        let id_hex = to_le_hex(rev.as_slice());
        proof {
            assert(reverse_of_spec(token_id@).reverse() =~= token_id@);
        }
        JsonToken {
            token_id: id_hex,
            token_type: token_meta.token_type,
            token_ticker: token_meta.token_ticker,
            token_name: token_meta.token_name,
            decimals: token_meta.decimals,
            group_id,
        }
    }
}

pub open spec fn reverse_of_spec(s: Seq<u8>) -> Seq<u8> {
    s.reverse()
}

fn reverse_of(s: &[u8]) -> (r: Vec<u8>)
    ensures
        r@ =~= reverse_of_spec(s@),
{
    let n: usize = s.len();
    let mut r: Vec<u8> = Vec::new();
    let mut i: usize = 0;
    while i < n
        invariant
            0 <= i <= n,
            n == s@.len(),
            r@.len() == i,
            forall|j: int| 0 <= j < i ==> r@[j] == s@[n - 1 - j],
        decreases n - i,
    {
        r.push(s[n - 1 - i]);
        i = i + 1;
    }
    r
}

pub struct JsonTx {
    pub tx_hash: String,
    pub block_height: Option<i32>,
    pub timestamp: i64,
    pub is_coinbase: bool,
    pub size: i32,
    pub num_inputs: u32,
    pub num_outputs: u32,
    pub sats_input: i64,
    pub sats_output: i64,
    pub delta_sats: i64,
    pub delta_tokens: i64,
    pub token_idx: Option<usize>,
    pub is_burned_slp: bool,
    pub token_input: u64,
    pub token_output: u64,
    pub slp_action: Option<crate::records::SlpAction>,
}

pub struct JsonTxs {
    pub txs: Vec<JsonTx>,
    pub tokens: Vec<JsonToken>,
    pub token_indices: Vec<(Vec<u8>, usize)>,
}

/// An address's transaction listing handed to the presentation layer.
pub struct AddressTx {
    pub tx_hash: [u8; 32],
    pub timestamp: i64,
    pub block_height: Option<i32>,
    pub delta_sats: i64,
    pub delta_tokens: i64,
}

pub struct AddressTxs {
    pub txs: Vec<AddressTx>,
}

/// Shell of the landing page.
pub struct HomepageTemplate {
}

/// Shell of the block-listing page.
pub struct BlocksTemplate {
    pub last_block_height: u32,
}

} // verus!
