//! Batch builders: the writes one confirmed block, or one set of mempool
//! transactions, contributes to the index.
//!
//! A block batch writes, atomically: the height index row, the block record,
//! and per transaction its record, its address rows, its created outputs,
//! the deletions of the outputs it spends, its spend edges, and (for a valid
//! GENESIS) the token record. A mempool batch writes the same shape into the
//! mempool overlay families, except that spends become additive rows in the
//! remove families and there is no height row.

use vstd::prelude::*;

use crate::chain::{Block, BlockInfo, Transaction, TxInput, TxOutput, SlpTransactionInfo,
    SlpTxAction, SlpValidity, TxidsOrTxs, spec_is_coinbase, is_coinbase};
use crate::codec::{le32, le64, enc_i32, enc_i64, enc_bool, enc_bytes_lp};
use crate::db::{CfId, WriteOp, OpView, ops_view, BlockBatches};
use crate::keys::{be32, AddrTxKey, UtxoKey, AddrUtxoKey, AddrKeyPrefix, TxOutSpend};
use crate::records::{TxMeta, TxMetaVariant, TokenMeta, SlpAction};
use crate::script::{script_address, script_hash_bytes};
use crate::slp::{spec_token_input_sum, spec_token_output_sum, spec_supported_action,
    classified_variant, classifiable, tx_meta_variant};

verus! {

/// `i64` addition clamped at the ends of the range.
pub open spec fn sat_add_i64(a: int, b: int) -> i64 {
    if a + b > i64::MAX {
        i64::MAX
    } else if a + b < i64::MIN {
        i64::MIN
    } else {
        (a + b) as i64
    }
}

/// Saturating sum of the inputs' satoshi values.
pub open spec fn spec_sats_input_sum(s: Seq<TxInput>) -> i64
    decreases s.len(),
{
    if s.len() == 0 {
        0
    } else {
        sat_add_i64(spec_sats_input_sum(s.drop_last()) as int, s.last().value as int)
    }
}

/// Saturating sum of the outputs' satoshi values.
pub open spec fn spec_sats_output_sum(s: Seq<TxOutput>) -> i64
    decreases s.len(),
{
    if s.len() == 0 {
        0
    } else {
        sat_add_i64(spec_sats_output_sum(s.drop_last()) as int, s.last().value as int)
    }
}

/// Saturating add, executable.
pub fn sat_add(a: i64, b: i64) -> (r: i64)
    ensures
        r == sat_add_i64(a as int, b as int),
{
    match a.checked_add(b) {
        Some(v) => v,
        None => {
            if b > 0 {
                i64::MAX
            } else {
                i64::MIN
            }
        },
    }
}

pub fn sats_input_sum(inputs: &Vec<TxInput>) -> (r: i64)
    ensures
        r == spec_sats_input_sum(inputs@),
{
    let n: usize = inputs.len();
    let mut sum: i64 = 0;
    let mut i: usize = 0;
    while i < n
        invariant
            0 <= i <= n,
            n == inputs@.len(),
            sum == spec_sats_input_sum(inputs@.subrange(0, i as int)),
        decreases n - i,
    {
        proof {
            assert(inputs@.subrange(0, i + 1).drop_last() =~= inputs@.subrange(0, i as int));
            assert(inputs@.subrange(0, i + 1).last() == inputs@[i as int]);
        }
        sum = sat_add(sum, inputs[i].value);
        i = i + 1;
    }
    proof {
        assert(inputs@.subrange(0, n as int) =~= inputs@);
    }
    sum
}

pub fn sats_output_sum(outputs: &Vec<TxOutput>) -> (r: i64)
    ensures
        r == spec_sats_output_sum(outputs@),
{
    let n: usize = outputs.len();
    let mut sum: i64 = 0;
    let mut i: usize = 0;
    while i < n
        invariant
            0 <= i <= n,
            n == outputs@.len(),
            sum == spec_sats_output_sum(outputs@.subrange(0, i as int)),
        decreases n - i,
    {
        proof {
            assert(outputs@.subrange(0, i + 1).drop_last() =~= outputs@.subrange(0, i as int));
            assert(outputs@.subrange(0, i + 1).last() == outputs@[i as int]);
        }
        sum = sat_add(sum, outputs[i].value);
        i = i + 1;
    }
    proof {
        assert(outputs@.subrange(0, n as int) =~= outputs@);
    }
    sum
}

/// The encoded bytes of the variant the decision table picks.
pub open spec fn spec_variant_bytes(
    slp: Option<SlpTransactionInfo>,
    in_sum: u64,
    out_sum: u64,
) -> Seq<u8> {
    match slp {
        None => seq![0u8],
        Some(info) => {
            if info.validity_judgement == SlpValidity::UnknownOrInvalid {
                if in_sum == 0 {
                    seq![0u8]
                } else {
                    seq![2u8] + enc_bytes_lp(info.token_id@) + le64(in_sum)
                }
            } else {
                match spec_supported_action(info.slp_action) {
                    Some(action) => seq![1u8, action.tag()] + le64(in_sum) + le64(out_sum)
                        + info.token_id@,
                    None => {
                        if info.slp_action == SlpTxAction::NonSlp {
                            seq![0u8]
                        } else {
                            seq![2u8] + enc_bytes_lp(info.token_id@) + le64(in_sum)
                        }
                    },
                }
            }
        },
    }
}

/// A classified variant encodes to exactly the bytes the table prescribes.
pub proof fn lemma_classified_variant_bytes(
    slp: Option<SlpTransactionInfo>,
    in_sum: u64,
    out_sum: u64,
    r: TxMetaVariant,
)
    requires
        classified_variant(slp, in_sum, out_sum, r),
    ensures
        r.enc() =~= spec_variant_bytes(slp, in_sum, out_sum),
{
}

/// Whether the transaction's first input marks it as coinbase.
pub open spec fn spec_tx_is_coinbase(tx: Transaction) -> bool {
    tx.inputs.len() > 0 && (tx.inputs[0].outpoint matches Some(o) && spec_is_coinbase(o))
}

/// The encoded tx record the batch stores for `tx`.
pub open spec fn spec_tx_meta_bytes(tx: Transaction) -> Seq<u8> {
    enc_i32(tx.block_height) + enc_i64(tx.timestamp) + enc_bool(spec_tx_is_coinbase(tx)) + enc_i32(
        tx.size,
    ) + le32(tx.inputs.len() as u32) + le32(tx.outputs.len() as u32) + enc_i64(
        spec_sats_input_sum(tx.inputs@),
    ) + enc_i64(spec_sats_output_sum(tx.outputs@)) + spec_variant_bytes(
        tx.slp_transaction_info,
        spec_token_input_sum(tx.inputs@),
        spec_token_output_sum(tx.outputs@),
    )
}

/// Errors of the batch builders.
#[derive(Clone, Copy, PartialEq, Eq, Structural, Debug)]
pub enum BatchError {
    /// A block fetch carried a bare tx hash where a transaction was needed.
    InvalidTx,
    /// The block came without its info header.
    NoBlockInfo,
    /// A block without transactions (a well-formed block has its coinbase).
    NoTxs,
    /// A transaction without inputs.
    NoInput,
    /// An input without its outpoint.
    NoOutpoint,
    /// An SLP token id that is neither empty nor 32 bytes.
    BadTokenId,
    /// A length field would not fit the wire format.
    Oversize,
}

/// The tx record write for one transaction.
pub open spec fn spec_tx_meta_op(tx: Transaction, is_mempool: bool) -> OpView {
    OpView {
        cf: if is_mempool {
            CfId::MempoolTxMeta
        } else {
            CfId::TxMetaCf
        },
        key: tx.hash@,
        val: Some(spec_tx_meta_bytes(tx)),
    }
}

/// Append the tx record write for `tx`.
pub fn add_tx_meta(batch: &mut Vec<WriteOp>, tx: &Transaction, is_mempool: bool) -> (r: Result<
    (),
    BatchError,
>)
    ensures
        r is Ok <==> tx.inputs@.len() > 0 && tx.inputs@[0].outpoint is Some && classifiable(*tx),
        r is Ok ==> ops_view(final(batch)@) =~~= ops_view(old(batch)@).push(
            spec_tx_meta_op(*tx, is_mempool),
        ),
        r is Err ==> final(batch)@ == old(batch)@,
        r == Err::<(), BatchError>(BatchError::NoInput) <==> tx.inputs@.len() == 0,
        tx.inputs@.len() > 0 ==> (r == Err::<(), BatchError>(BatchError::NoOutpoint) <==> tx.inputs@[0].outpoint is None),
{
    if tx.inputs.len() == 0 {
        return Err(BatchError::NoInput);
    }
    let outpoint = match &tx.inputs[0].outpoint {
        Some(o) => o,
        None => {
            return Err(BatchError::NoOutpoint);
        },
    };
    match &tx.slp_transaction_info {
        Some(info) => {
            if info.validity_judgement == SlpValidity::Valid {
                let supported: bool = match info.slp_action {
                    SlpTxAction::NonSlp | SlpTxAction::NonSlpBurn | SlpTxAction::SlpParseError
                        | SlpTxAction::SlpUnsupportedVersion => false,
                    _ => true,
                };
                if supported && info.token_id.len() != 32 {
                    return Err(BatchError::BadTokenId);
                }
            }
            if info.token_id.len() > u32::MAX as usize {
                return Err(BatchError::BadTokenId);
            }
        },
        None => {},
    }
    let cb = is_coinbase(outpoint);
    let variant = tx_meta_variant(tx);
    let meta = TxMeta {
        block_height: tx.block_height,
        timestamp: tx.timestamp,
        is_coinbase: cb,
        size: tx.size,
        num_inputs: #[verifier::truncate] (tx.inputs.len() as u32),
        num_outputs: #[verifier::truncate] (tx.outputs.len() as u32),
        sats_input: sats_input_sum(&tx.inputs),
        sats_output: sats_output_sum(&tx.outputs),
        variant,
    };
    let value = meta.encode();
    let key = crate::codec::read_vec(tx.hash.as_slice(), 0, 32);
    let cf = if is_mempool {
        CfId::MempoolTxMeta
    } else {
        CfId::TxMetaCf
    };
    proof {
        lemma_classified_variant_bytes(
            tx.slp_transaction_info,
            spec_token_input_sum(tx.inputs@),
            spec_token_output_sum(tx.outputs@),
            variant,
        );
        assert(meta.enc() =~= spec_tx_meta_bytes(*tx));
        assert(key@ =~= tx.hash@);
    }
    batch.push(WriteOp::Put { cf, key, value });
    proof {
        assert(ops_view(batch@) =~~= ops_view(old(batch)@).push(spec_tx_meta_op(*tx, is_mempool)));
    }
    Ok(())
}


/// The spend-edge record bytes for input `idx` of `tx`.
pub open spec fn spec_spend_bytes(tx_hash: Seq<u8>, idx: u32) -> Seq<u8> {
    tx_hash + be32(idx)
}

/// Spend-edge writes: one per input that names its outpoint, keyed by the
/// spent output, recording the spending tx and input index.
pub open spec fn spec_tx_out_spend_ops(
    tx_hash: Seq<u8>,
    inputs: Seq<TxInput>,
    is_mempool: bool,
) -> Seq<OpView>
    decreases inputs.len(),
{
    if inputs.len() == 0 {
        Seq::empty()
    } else {
        spec_tx_out_spend_ops(tx_hash, inputs.drop_last(), is_mempool) + (match inputs.last(
        ).outpoint {
            Some(o) => seq![
                OpView {
                    cf: if is_mempool {
                        CfId::MempoolTxOutSpend
                    } else {
                        CfId::TxOutSpendCf
                    },
                    key: o.hash@ + be32(o.index),
                    val: Some(spec_spend_bytes(tx_hash, (inputs.len() - 1) as u32)),
                },
            ],
            None => Seq::empty(),
        })
    }
}

/// Append the spend-edge writes for `tx`.
pub fn add_tx_out_spend(batch: &mut Vec<WriteOp>, tx: &Transaction, is_mempool: bool)
    requires
        tx.inputs@.len() <= u32::MAX,
    ensures
        ops_view(final(batch)@) =~~= ops_view(old(batch)@) + spec_tx_out_spend_ops(
            tx.hash@,
            tx.inputs@,
            is_mempool,
        ),
{
    let cf = if is_mempool {
        CfId::MempoolTxOutSpend
    } else {
        CfId::TxOutSpendCf
    };
    let n: usize = tx.inputs.len();
    let mut i: usize = 0;
    while i < n
        invariant
            0 <= i <= n,
            n == tx.inputs@.len() <= u32::MAX,
            cf == if is_mempool {
                CfId::MempoolTxOutSpend
            } else {
                CfId::TxOutSpendCf
            },
            ops_view(batch@) =~~= ops_view(old(batch)@) + spec_tx_out_spend_ops(
                tx.hash@,
                tx.inputs@.subrange(0, i as int),
                is_mempool,
            ),
        decreases n - i,
    {
        proof {
            assert(tx.inputs@.subrange(0, i + 1).drop_last() =~= tx.inputs@.subrange(0, i as int));
            assert(tx.inputs@.subrange(0, i + 1).last() == tx.inputs@[i as int]);
        }
        if let Some(outpoint) = &tx.inputs[i].outpoint {
            let spend = TxOutSpend { by_tx_hash: tx.hash, by_tx_input_idx: i as u32 };
            let utxo_key = UtxoKey { tx_hash: outpoint.hash, out_idx: outpoint.index };
            let ghost prev = batch@;
            let op = WriteOp::Put { cf, key: utxo_key.encode(), value: spend.encode() };
            let ghost opv = op.view();
            batch.push(op);
            proof {
                crate::db::lemma_ops_view_push(prev, batch@.last());
                assert(ops_view(batch@) =~~= ops_view(prev).push(opv));
            }
        }
        i = i + 1;
    }
    proof {
        assert(tx.inputs@.subrange(0, n as int) =~= tx.inputs@);
    }
}

/// The token id an output of `tx` carries, as stored in the UTXO record.
pub open spec fn spec_utxo_token_bytes(tx: Transaction) -> Seq<u8> {
    match tx.slp_transaction_info {
        Some(info) => if info.token_id@.len() != 0 {
            seq![1u8] + info.token_id@
        } else {
            seq![0u8]
        },
        None => seq![0u8],
    }
}

/// The UTXO record bytes for one output of `tx`.
pub open spec fn spec_utxo_bytes(tx: Transaction, out: TxOutput) -> Seq<u8> {
    enc_i64(out.value) + le64(
        match out.slp_token {
            Some(t) => t.amount,
            None => 0,
        },
    ) + enc_bool(spec_tx_is_coinbase(tx)) + enc_i32(tx.block_height) + spec_utxo_token_bytes(tx)
}

/// UTXO-creation writes: one record per output of `tx`.
pub open spec fn spec_utxo_put_ops(tx: Transaction, outputs: Seq<TxOutput>, is_mempool: bool) -> Seq<
    OpView,
>
    decreases outputs.len(),
{
    if outputs.len() == 0 {
        Seq::empty()
    } else {
        spec_utxo_put_ops(tx, outputs.drop_last(), is_mempool) + seq![
            OpView {
                cf: if is_mempool {
                    CfId::MempoolUtxoSetAdd
                } else {
                    CfId::UtxoSet
                },
                key: tx.hash@ + be32((outputs.len() - 1) as u32),
                val: Some(spec_utxo_bytes(tx, outputs.last())),
            },
        ]
    }
}

/// UTXO-removal writes: spending an output deletes its confirmed record, or
/// adds a shadowing row in the mempool remove family.
pub open spec fn spec_utxo_remove_ops(inputs: Seq<TxInput>, is_mempool: bool) -> Seq<OpView>
    decreases inputs.len(),
{
    if inputs.len() == 0 {
        Seq::empty()
    } else {
        spec_utxo_remove_ops(inputs.drop_last(), is_mempool) + (match inputs.last().outpoint {
            Some(o) => seq![
                if is_mempool {
                    OpView {
                        cf: CfId::MempoolUtxoSetRemove,
                        key: o.hash@ + be32(o.index),
                        val: Some(Seq::empty()),
                    }
                } else {
                    OpView { cf: CfId::UtxoSet, key: o.hash@ + be32(o.index), val: None }
                },
            ],
            None => Seq::empty(),
        })
    }
}

pub open spec fn spec_utxo_puts_all(txs: Seq<Transaction>, is_mempool: bool) -> Seq<OpView>
    decreases txs.len(),
{
    if txs.len() == 0 {
        Seq::empty()
    } else {
        spec_utxo_puts_all(txs.drop_last(), is_mempool) + spec_utxo_put_ops(
            txs.last(),
            txs.last().outputs@,
            is_mempool,
        )
    }
}

pub open spec fn spec_utxo_removes_all(txs: Seq<Transaction>, is_mempool: bool) -> Seq<OpView>
    decreases txs.len(),
{
    if txs.len() == 0 {
        Seq::empty()
    } else {
        spec_utxo_removes_all(txs.drop_last(), is_mempool) + spec_utxo_remove_ops(
            txs.last().inputs@,
            is_mempool,
        )
    }
}

/// All UTXO-set writes of a batch: every tx's creations, then every tx's
/// removals.
pub open spec fn spec_utxo_ops_all(txs: Seq<Transaction>, is_mempool: bool) -> Seq<OpView> {
    spec_utxo_puts_all(txs, is_mempool) + spec_utxo_removes_all(txs, is_mempool)
}

/// Whether every transaction of the slice can feed the UTXO builder.
pub open spec fn spec_utxo_txs_ok(txs: Seq<Transaction>) -> bool {
    forall|i: int| 0 <= i < txs.len() ==> {
        &&& (#[trigger] txs[i]).outputs@.len() <= u32::MAX
        &&& (match txs[i].slp_transaction_info {
            Some(info) => info.token_id@.len() == 32 || info.token_id@.len() == 0,
            None => true,
        })
    }
}

/// Append all UTXO-set writes for `txs`.
pub fn update_utxo_set(batch: &mut Vec<WriteOp>, txs: &Vec<Transaction>, is_mempool: bool) -> (r:
    Result<(), BatchError>)
    ensures
        r is Ok <==> spec_utxo_txs_ok(txs@),
        r is Ok ==> ops_view(final(batch)@) =~~= ops_view(old(batch)@) + spec_utxo_ops_all(
            txs@,
            is_mempool,
        ),
        r is Err ==> final(batch)@ == old(batch)@,
    {
    let n: usize = txs.len();
    let ghost base = ops_view(batch@);
    // validation pass, so that a bad tx leaves no partial writes behind
    let mut t: usize = 0;
    while t < n
        invariant
            0 <= t <= n,
            n == txs@.len(),
            forall|i: int| 0 <= i < t ==> {
                &&& (#[trigger] txs@[i]).outputs@.len() <= u32::MAX
                &&& (match txs@[i].slp_transaction_info {
                    Some(info) => info.token_id@.len() == 32 || info.token_id@.len() == 0,
                    None => true,
                })
            },
        decreases n - t,
    {
        if txs[t].outputs.len() > u32::MAX as usize {
            return Err(BatchError::Oversize);
        }
        match &txs[t].slp_transaction_info {
            Some(info) => {
                if info.token_id.len() != 32 && info.token_id.len() != 0 {
                    return Err(BatchError::BadTokenId);
                }
            },
            None => {},
        }
        t = t + 1;
    }
    let mut t: usize = 0;
    while t < n
        invariant
            0 <= t <= n,
            n == txs@.len(),
            spec_utxo_txs_ok(txs@),
            ops_view(batch@) =~~= base + spec_utxo_puts_all(txs@.subrange(0, t as int), is_mempool),
        decreases n - t,
    {
        let tx = &txs[t];
        let ghost pre = ops_view(batch@);
        let cb: bool = tx.inputs.len() > 0 && (match &tx.inputs[0].outpoint {
            Some(o) => is_coinbase(o),
            None => false,
        });
        proof {
            assert(cb == spec_tx_is_coinbase(*tx));
        }
        let m: usize = tx.outputs.len();
        let mut i: usize = 0;
        while i < m
            invariant
                0 <= i <= m,
                m == tx.outputs@.len() <= u32::MAX,
                spec_utxo_txs_ok(txs@),
                tx == txs@[t as int],
                0 <= t < txs@.len(),
                ops_view(batch@) =~~= pre + spec_utxo_put_ops(
                    *tx,
                    tx.outputs@.subrange(0, i as int),
                    is_mempool,
                ),
                cb == spec_tx_is_coinbase(*tx),
            decreases m - i,
        {
            proof {
                assert(tx.outputs@.subrange(0, i + 1).drop_last() =~= tx.outputs@.subrange(
                    0,
                    i as int,
                ));
                assert(tx.outputs@.subrange(0, i + 1).last() == tx.outputs@[i as int]);
            }
            let utxo_key = UtxoKey { tx_hash: tx.hash, out_idx: i as u32 };
            let mut value: Vec<u8> = Vec::new();
            crate::codec::push_i64(&mut value, tx.outputs[i].value);
            crate::codec::push_le64(
                &mut value,
                match &tx.outputs[i].slp_token {
                    Some(tok) => tok.amount,
                    None => 0,
                },
            );
            crate::codec::push_bool(&mut value, cb);
            crate::codec::push_i32(&mut value, tx.block_height);
            match &tx.slp_transaction_info {
                Some(info) => {
                    if info.token_id.len() != 0 {
                        value.push(1u8);
                        crate::keys::push_bytes(&mut value, info.token_id.as_slice());
                    } else {
                        value.push(0u8);
                    }
                },
                None => {
                    value.push(0u8);
                },
            }
            proof {
                assert(value@ =~= spec_utxo_bytes(*tx, tx.outputs@[i as int]));
            }
            let ghost prev = batch@;
            let op = WriteOp::Put {
                cf: if is_mempool {
                    CfId::MempoolUtxoSetAdd
                } else {
                    CfId::UtxoSet
                },
                key: utxo_key.encode(),
                value,
            };
            let ghost opv = op.view();
            batch.push(op);
            proof {
                crate::db::lemma_ops_view_push(prev, batch@.last());
                assert(ops_view(batch@) =~~= ops_view(prev).push(opv));
            }
            i = i + 1;
        }
        proof {
            assert(tx.outputs@.subrange(0, m as int) =~= tx.outputs@);
            assert(txs@.subrange(0, t + 1).drop_last() =~= txs@.subrange(0, t as int));
            assert(txs@.subrange(0, t + 1).last() == txs@[t as int]);
        }
        t = t + 1;
    }
    proof {
        assert(txs@.subrange(0, n as int) =~= txs@);
    }
    let ghost mid = ops_view(batch@);
    let mut t: usize = 0;
    while t < n
        invariant
            0 <= t <= n,
            n == txs@.len(),
            ops_view(batch@) =~~= mid + spec_utxo_removes_all(txs@.subrange(0, t as int), is_mempool),
        decreases n - t,
    {
        let tx = &txs[t];
        let ghost pre = ops_view(batch@);
        let m: usize = tx.inputs.len();
        let mut i: usize = 0;
        while i < m
            invariant
                0 <= i <= m,
                m == tx.inputs@.len(),
                tx == txs@[t as int],
                0 <= t < txs@.len(),
                ops_view(batch@) =~~= pre + spec_utxo_remove_ops(
                    tx.inputs@.subrange(0, i as int),
                    is_mempool,
                ),
            decreases m - i,
        {
            proof {
                assert(tx.inputs@.subrange(0, i + 1).drop_last() =~= tx.inputs@.subrange(
                    0,
                    i as int,
                ));
                assert(tx.inputs@.subrange(0, i + 1).last() == tx.inputs@[i as int]);
            }
            if let Some(outpoint) = &tx.inputs[i].outpoint {
                let utxo_key = UtxoKey { tx_hash: outpoint.hash, out_idx: outpoint.index };
                let ghost prev = batch@;
                let op = if is_mempool {
                    WriteOp::Put {
                        cf: CfId::MempoolUtxoSetRemove,
                        key: utxo_key.encode(),
                        value: Vec::new(),
                    }
                } else {
                    WriteOp::Delete { cf: CfId::UtxoSet, key: utxo_key.encode() }
                };
                let ghost opv = op.view();
                batch.push(op);
                proof {
                    crate::db::lemma_ops_view_push(prev, batch@.last());
                    assert(ops_view(batch@) =~~= ops_view(prev).push(opv));
                }
            }
            i = i + 1;
        }
        proof {
            assert(tx.inputs@.subrange(0, m as int) =~= tx.inputs@);
            assert(txs@.subrange(0, t + 1).drop_last() =~= txs@.subrange(0, t as int));
            assert(txs@.subrange(0, t + 1).last() == txs@[t as int]);
        }
        t = t + 1;
    }
    proof {
        assert(txs@.subrange(0, n as int) =~= txs@);
    }
    Ok(())
}


/// The address-type byte of an address-carrying script.
pub open spec fn spec_addr_type(s: Seq<u8>) -> u8 {
    if crate::script::is_p2pkh(s) {
        crate::script::ADDR_TYPE_P2PKH
    } else {
        crate::script::ADDR_TYPE_P2SH
    }
}

/// The address/tx key bytes for a script, height and tx hash.
pub open spec fn spec_addr_tx_key(script: Seq<u8>, height: u32, tx_hash: Seq<u8>) -> Seq<u8> {
    seq![spec_addr_type(script)] + script_hash_bytes(script) + be32(height) + tx_hash
}

/// The address/utxo key bytes for a script and an output key.
pub open spec fn spec_addr_utxo_key(script: Seq<u8>, utxo_key: Seq<u8>) -> Seq<u8> {
    seq![spec_addr_type(script)] + script_hash_bytes(script) + utxo_key
}

/// Address-UTXO membership writes: one empty row per output that pays an
/// address.
pub open spec fn spec_addr_utxo_put_ops(
    tx_hash: Seq<u8>,
    outputs: Seq<TxOutput>,
    is_mempool: bool,
) -> Seq<OpView>
    decreases outputs.len(),
{
    if outputs.len() == 0 {
        Seq::empty()
    } else {
        spec_addr_utxo_put_ops(tx_hash, outputs.drop_last(), is_mempool) + (if script_address(
            outputs.last().pubkey_script@,
        ) is Some {
            seq![
                OpView {
                    cf: if is_mempool {
                        CfId::MempoolAddrUtxoAdd
                    } else {
                        CfId::AddrUtxo
                    },
                    key: spec_addr_utxo_key(
                        outputs.last().pubkey_script@,
                        tx_hash + be32((outputs.len() - 1) as u32),
                    ),
                    val: Some(Seq::empty()),
                },
            ]
        } else {
            Seq::empty()
        })
    }
}

/// Address-UTXO removal writes: spending an address's output deletes its
/// membership row, or shadows it in the mempool remove family.
pub open spec fn spec_addr_utxo_remove_ops(inputs: Seq<TxInput>, is_mempool: bool) -> Seq<OpView>
    decreases inputs.len(),
{
    if inputs.len() == 0 {
        Seq::empty()
    } else {
        spec_addr_utxo_remove_ops(inputs.drop_last(), is_mempool) + (if script_address(
            inputs.last().previous_script@,
        ) is Some && inputs.last().outpoint is Some {
            seq![
                if is_mempool {
                    OpView {
                        cf: CfId::MempoolAddrUtxoRemove,
                        key: spec_addr_utxo_key(
                            inputs.last().previous_script@,
                            inputs.last().outpoint->0.hash@ + be32(inputs.last().outpoint->0.index),
                        ),
                        val: Some(Seq::empty()),
                    }
                } else {
                    OpView {
                        cf: CfId::AddrUtxo,
                        key: spec_addr_utxo_key(
                            inputs.last().previous_script@,
                            inputs.last().outpoint->0.hash@ + be32(inputs.last().outpoint->0.index),
                        ),
                        val: None,
                    }
                },
            ]
        } else {
            Seq::empty()
        })
    }
}

pub open spec fn spec_addr_utxo_puts_all(txs: Seq<Transaction>, is_mempool: bool) -> Seq<OpView>
    decreases txs.len(),
{
    if txs.len() == 0 {
        Seq::empty()
    } else {
        spec_addr_utxo_puts_all(txs.drop_last(), is_mempool) + spec_addr_utxo_put_ops(
            txs.last().hash@,
            txs.last().outputs@,
            is_mempool,
        )
    }
}

pub open spec fn spec_addr_utxo_removes_all(txs: Seq<Transaction>, is_mempool: bool) -> Seq<OpView>
    decreases txs.len(),
{
    if txs.len() == 0 {
        Seq::empty()
    } else {
        spec_addr_utxo_removes_all(txs.drop_last(), is_mempool) + spec_addr_utxo_remove_ops(
            txs.last().inputs@,
            is_mempool,
        )
    }
}

/// All address-UTXO writes of a batch.
pub open spec fn spec_addr_utxo_ops_all(txs: Seq<Transaction>, is_mempool: bool) -> Seq<OpView> {
    spec_addr_utxo_puts_all(txs, is_mempool) + spec_addr_utxo_removes_all(txs, is_mempool)
}

/// Append all address-UTXO writes for `txs`.
pub fn update_addr_utxo_set(batch: &mut Vec<WriteOp>, txs: &Vec<Transaction>, is_mempool: bool)
    ensures
        ops_view(final(batch)@) =~~= ops_view(old(batch)@) + spec_addr_utxo_ops_all(
            txs@,
            is_mempool,
        ),
{
    let n: usize = txs.len();
    let ghost base = ops_view(batch@);
    let mut t: usize = 0;
    while t < n
        invariant
            0 <= t <= n,
            n == txs@.len(),
            ops_view(batch@) =~~= base + spec_addr_utxo_puts_all(
                txs@.subrange(0, t as int),
                is_mempool,
            ),
        decreases n - t,
    {
        let tx = &txs[t];
        let ghost pre = ops_view(batch@);
        let m: usize = tx.outputs.len();
        let mut i: usize = 0;
        while i < m
            invariant
                0 <= i <= m,
                m == tx.outputs@.len(),
                tx == txs@[t as int],
                0 <= t < txs@.len(),
                ops_view(batch@) =~~= pre + spec_addr_utxo_put_ops(
                    tx.hash@,
                    tx.outputs@.subrange(0, i as int),
                    is_mempool,
                ),
            decreases m - i,
        {
            proof {
                assert(tx.outputs@.subrange(0, i + 1).drop_last() =~= tx.outputs@.subrange(
                    0,
                    i as int,
                ));
                assert(tx.outputs@.subrange(0, i + 1).last() == tx.outputs@[i as int]);
            }
            if let Some(addr) = crate::script::script_to_address(
                tx.outputs[i].pubkey_script.as_slice(),
            ) {
                let key = AddrUtxoKey {
                    addr,
                    utxo_key: UtxoKey { tx_hash: tx.hash, out_idx: #[verifier::truncate] (i as u32) },
                };
                let ghost prev = batch@;
                let op = WriteOp::Put {
                    cf: if is_mempool {
                        CfId::MempoolAddrUtxoAdd
                    } else {
                        CfId::AddrUtxo
                    },
                    key: key.encode(),
                    value: Vec::new(),
                };
                let ghost opv = op.view();
                batch.push(op);
                proof {
                    crate::db::lemma_ops_view_push(prev, batch@.last());
                    assert(opv.key =~= spec_addr_utxo_key(
                        tx.outputs@[i as int].pubkey_script@,
                        tx.hash@ + be32(i as u32),
                    ));
                    assert(ops_view(batch@) =~~= ops_view(prev).push(opv));
                }
            }
            i = i + 1;
        }
        proof {
            assert(tx.outputs@.subrange(0, m as int) =~= tx.outputs@);
            assert(txs@.subrange(0, t + 1).drop_last() =~= txs@.subrange(0, t as int));
            assert(txs@.subrange(0, t + 1).last() == txs@[t as int]);
        }
        t = t + 1;
    }
    proof {
        assert(txs@.subrange(0, n as int) =~= txs@);
    }
    let ghost mid = ops_view(batch@);
    let mut t: usize = 0;
    while t < n
        invariant
            0 <= t <= n,
            n == txs@.len(),
            ops_view(batch@) =~~= mid + spec_addr_utxo_removes_all(
                txs@.subrange(0, t as int),
                is_mempool,
            ),
        decreases n - t,
    {
        let tx = &txs[t];
        let ghost pre = ops_view(batch@);
        let m: usize = tx.inputs.len();
        let mut i: usize = 0;
        while i < m
            invariant
                0 <= i <= m,
                m == tx.inputs@.len(),
                tx == txs@[t as int],
                0 <= t < txs@.len(),
                ops_view(batch@) =~~= pre + spec_addr_utxo_remove_ops(
                    tx.inputs@.subrange(0, i as int),
                    is_mempool,
                ),
            decreases m - i,
        {
            proof {
                assert(tx.inputs@.subrange(0, i + 1).drop_last() =~= tx.inputs@.subrange(
                    0,
                    i as int,
                ));
                assert(tx.inputs@.subrange(0, i + 1).last() == tx.inputs@[i as int]);
            }
            if let Some(addr) = crate::script::script_to_address(
                tx.inputs[i].previous_script.as_slice(),
            ) {
                if let Some(outpoint) = &tx.inputs[i].outpoint {
                    let key = AddrUtxoKey {
                        addr,
                        utxo_key: UtxoKey { tx_hash: outpoint.hash, out_idx: outpoint.index },
                    };
                    let ghost prev = batch@;
                    let op = if is_mempool {
                        WriteOp::Put {
                            cf: CfId::MempoolAddrUtxoRemove,
                            key: key.encode(),
                            value: Vec::new(),
                        }
                    } else {
                        WriteOp::Delete { cf: CfId::AddrUtxo, key: key.encode() }
                    };
                    let ghost opv = op.view();
                    batch.push(op);
                    proof {
                        crate::db::lemma_ops_view_push(prev, batch@.last());
                        assert(opv.key =~= spec_addr_utxo_key(
                            tx.inputs@[i as int].previous_script@,
                            outpoint.hash@ + be32(outpoint.index),
                        ));
                        assert(ops_view(batch@) =~~= ops_view(prev).push(opv));
                    }
                }
            }
            i = i + 1;
        }
        proof {
            assert(tx.inputs@.subrange(0, m as int) =~= tx.inputs@);
            assert(txs@.subrange(0, t + 1).drop_last() =~= txs@.subrange(0, t as int));
            assert(txs@.subrange(0, t + 1).last() == txs@[t as int]);
        }
        t = t + 1;
    }
    proof {
        assert(txs@.subrange(0, n as int) =~= txs@);
    }
}


/// One accumulated per-script delta while building an address/tx batch.
pub struct DeltaEntry {
    pub script: Vec<u8>,
    pub delta_sats: i64,
    pub delta_tokens: i64,
}

impl DeltaEntry {
    pub open spec fn view(self) -> (Seq<u8>, i64, i64) {
        (self.script@, self.delta_sats, self.delta_tokens)
    }
}

pub open spec fn deltas_view(s: Seq<DeltaEntry>) -> Seq<(Seq<u8>, i64, i64)> {
    s.map(|_i: int, e: DeltaEntry| e.view())
}

/// Add `(dv, dt)` (subtracting instead when `sub` is set) to the entry of
/// `script`, appending a fresh entry on first sight. First-seen order is kept.
pub open spec fn delta_upsert(
    acc: Seq<(Seq<u8>, i64, i64)>,
    script: Seq<u8>,
    sub: bool,
    dv: i64,
    dt: i64,
) -> Seq<(Seq<u8>, i64, i64)>
    decreases acc.len(),
{
    let dvi: int = if sub {
        -(dv as int)
    } else {
        dv as int
    };
    let dti: int = if sub {
        -(dt as int)
    } else {
        dt as int
    };
    if acc.len() == 0 {
        seq![(script, sat_add_i64(0, dvi), sat_add_i64(0, dti))]
    } else if acc[0].0 == script {
        seq![(script, sat_add_i64(acc[0].1 as int, dvi), sat_add_i64(acc[0].2 as int, dti))]
            + acc.skip(1)
    } else {
        seq![acc[0]] + delta_upsert(acc.skip(1), script, sub, dv, dt)
    }
}

/// Skipping entries whose script does not match commutes with the upsert.
proof fn lemma_delta_upsert_skip(
    acc: Seq<(Seq<u8>, i64, i64)>,
    j: int,
    script: Seq<u8>,
    sub: bool,
    dv: i64,
    dt: i64,
)
    requires
        0 <= j <= acc.len(),
        forall|k: int| 0 <= k < j ==> (#[trigger] acc[k]).0 != script,
    ensures
        delta_upsert(acc, script, sub, dv, dt) =~= acc.subrange(0, j) + delta_upsert(
            acc.skip(j),
            script,
            sub,
            dv,
            dt,
        ),
    decreases j,
{
    if j == 0 {
        assert(acc.skip(0) =~= acc);
        assert(acc.subrange(0, 0) =~= Seq::<(Seq<u8>, i64, i64)>::empty());
    } else {
        assert(acc.len() > 0 && acc[0].0 != script);
        lemma_delta_upsert_skip(acc.skip(1), j - 1, script, sub, dv, dt);
        assert(acc.skip(1).skip(j - 1) =~= acc.skip(j));
        assert(seq![acc[0]] + (acc.skip(1).subrange(0, j - 1) + delta_upsert(
            acc.skip(j),
            script,
            sub,
            dv,
            dt,
        )) =~= acc.subrange(0, j) + delta_upsert(acc.skip(j), script, sub, dv, dt));
    }
}

/// Apply one delta to the in-progress accumulator.
fn upsert_delta(entries: &mut Vec<DeltaEntry>, script: &Vec<u8>, sub: bool, dv: i64, dt: i64)
    ensures
        deltas_view(final(entries)@) =~~= delta_upsert(
            deltas_view(old(entries)@),
            script@,
            sub,
            dv,
            dt,
        ),
{
    let n: usize = entries.len();
    let mut j: usize = 0;
    while j < n
        invariant
            0 <= j <= n,
            n == entries@.len(),
            entries == old(entries),
            forall|k: int| 0 <= k < j ==> (#[trigger] deltas_view(entries@)[k]).0 != script@,
        decreases n - j,
    {
        if let crate::bytesord::ByteOrd::Equal = crate::bytesord::cmp_bytes(
            entries[j].script.as_slice(),
            script.as_slice(),
        ) {
            let old_ds: i64 = entries[j].delta_sats;
            let old_dt: i64 = entries[j].delta_tokens;
            let new_ds: i64 = if sub {
                sat_sub(old_ds, dv)
            } else {
                sat_add(old_ds, dv)
            };
            let new_dt: i64 = if sub {
                sat_sub(old_dt, dt)
            } else {
                sat_add(old_dt, dt)
            };
            let sc = crate::store::clone_bytes(&entries[j].script);
            entries.set(j, DeltaEntry { script: sc, delta_sats: new_ds, delta_tokens: new_dt });
            proof {
                lemma_delta_upsert_skip(
                    deltas_view(old(entries)@),
                    j as int,
                    script@,
                    sub,
                    dv,
                    dt,
                );
                assert(deltas_view(old(entries)@).skip(j as int)[0].0 == script@);
                assert(deltas_view(entries@) =~~= deltas_view(old(entries)@).subrange(0, j as int)
                    + delta_upsert(
                    deltas_view(old(entries)@).skip(j as int),
                    script@,
                    sub,
                    dv,
                    dt,
                ));
            }
            return ;
        }
        j = j + 1;
    }
    let new_ds: i64 = if sub {
        sat_sub(0, dv)
    } else {
        sat_add(0, dv)
    };
    let new_dt: i64 = if sub {
        sat_sub(0, dt)
    } else {
        sat_add(0, dt)
    };
    let sc = crate::store::clone_bytes(script);
    entries.push(DeltaEntry { script: sc, delta_sats: new_ds, delta_tokens: new_dt });
    proof {
        lemma_delta_upsert_skip(deltas_view(old(entries)@), n as int, script@, sub, dv, dt);
        assert(deltas_view(old(entries)@).skip(n as int).len() == 0);
        assert(deltas_view(entries@) =~~= deltas_view(old(entries)@) + delta_upsert(
            deltas_view(old(entries)@).skip(n as int),
            script@,
            sub,
            dv,
            dt,
        ));
    }
}

/// Saturating subtraction.
pub fn sat_sub(a: i64, b: i64) -> (r: i64)
    ensures
        r == sat_add_i64(a as int, -(b as int)),
{
    match a.checked_sub(b) {
        Some(v) => v,
        None => {
            if b > 0 {
                i64::MIN
            } else {
                i64::MAX
            }
        },
    }
}

/// The token amount of an input, as the signed delta the schema stores (a
/// plain bit-pattern cast).
pub open spec fn spec_input_token_delta(i: TxInput) -> i64 {
    match i.slp_token {
        Some(t) => t.amount as i64,
        None => 0,
    }
}

pub open spec fn spec_output_token_delta(o: TxOutput) -> i64 {
    match o.slp_token {
        Some(t) => t.amount as i64,
        None => 0,
    }
}

/// Fold the inputs into the accumulator: spending subtracts.
pub open spec fn spec_deltas_inputs(
    acc: Seq<(Seq<u8>, i64, i64)>,
    inputs: Seq<TxInput>,
) -> Seq<(Seq<u8>, i64, i64)>
    decreases inputs.len(),
{
    if inputs.len() == 0 {
        acc
    } else {
        delta_upsert(
            spec_deltas_inputs(acc, inputs.drop_last()),
            inputs.last().previous_script@,
            true,
            inputs.last().value,
            spec_input_token_delta(inputs.last()),
        )
    }
}

/// Fold the outputs into the accumulator: receiving adds.
pub open spec fn spec_deltas_outputs(
    acc: Seq<(Seq<u8>, i64, i64)>,
    outputs: Seq<TxOutput>,
) -> Seq<(Seq<u8>, i64, i64)>
    decreases outputs.len(),
{
    if outputs.len() == 0 {
        acc
    } else {
        delta_upsert(
            spec_deltas_outputs(acc, outputs.drop_last()),
            outputs.last().pubkey_script@,
            false,
            outputs.last().value,
            spec_output_token_delta(outputs.last()),
        )
    }
}

/// Per-script deltas of one transaction: received minus spent, in satoshis
/// and token units, scripts in first-seen order (inputs first).
pub open spec fn spec_tx_deltas(tx: Transaction) -> Seq<(Seq<u8>, i64, i64)> {
    spec_deltas_outputs(spec_deltas_inputs(Seq::empty(), tx.inputs@), tx.outputs@)
}

/// The delta pair recorded for one script, if the script appears.
pub open spec fn delta_lookup(acc: Seq<(Seq<u8>, i64, i64)>, sc: Seq<u8>) -> Option<(i64, i64)>
    decreases acc.len(),
{
    if acc.len() == 0 {
        None
    } else if acc[0].0 == sc {
        Some((acc[0].1, acc[0].2))
    } else {
        delta_lookup(acc.skip(1), sc)
    }
}

/// Apply one contribution to a script's running pair (a fresh script starts
/// from zero).
pub open spec fn delta_step(cur: Option<(i64, i64)>, sub: bool, dv: i64, dt: i64) -> Option<
    (i64, i64),
> {
    let base = match cur {
        Some(p) => p,
        None => (0i64, 0i64),
    };
    let dvi: int = if sub {
        -(dv as int)
    } else {
        dv as int
    };
    let dti: int = if sub {
        -(dt as int)
    } else {
        dt as int
    };
    Some((sat_add_i64(base.0 as int, dvi), sat_add_i64(base.1 as int, dti)))
}

/// One script's running pair over the inputs: spending subtracts.
pub open spec fn spec_script_delta_inputs(
    cur: Option<(i64, i64)>,
    inputs: Seq<TxInput>,
    sc: Seq<u8>,
) -> Option<(i64, i64)>
    decreases inputs.len(),
{
    if inputs.len() == 0 {
        cur
    } else {
        let prev = spec_script_delta_inputs(cur, inputs.drop_last(), sc);
        if inputs.last().previous_script@ == sc {
            delta_step(prev, true, inputs.last().value, spec_input_token_delta(inputs.last()))
        } else {
            prev
        }
    }
}

/// One script's running pair over the outputs: receiving adds.
pub open spec fn spec_script_delta_outputs(
    cur: Option<(i64, i64)>,
    outputs: Seq<TxOutput>,
    sc: Seq<u8>,
) -> Option<(i64, i64)>
    decreases outputs.len(),
{
    if outputs.len() == 0 {
        cur
    } else {
        let prev = spec_script_delta_outputs(cur, outputs.drop_last(), sc);
        if outputs.last().pubkey_script@ == sc {
            delta_step(prev, false, outputs.last().value, spec_output_token_delta(outputs.last()))
        } else {
            prev
        }
    }
}

/// The pair one transaction owes a script: the saturating sum of what its
/// outputs pay the script minus what its inputs spend from it, in satoshis
/// and in token units; absent when the script appears nowhere in the tx.
pub open spec fn spec_script_delta(tx: Transaction, sc: Seq<u8>) -> Option<(i64, i64)> {
    spec_script_delta_outputs(
        spec_script_delta_inputs(None, tx.inputs@, sc),
        tx.outputs@,
        sc,
    )
}

/// An upsert changes exactly the touched script's pair, by one step.
proof fn lemma_delta_upsert_lookup(
    acc: Seq<(Seq<u8>, i64, i64)>,
    script: Seq<u8>,
    sub: bool,
    dv: i64,
    dt: i64,
    sc: Seq<u8>,
)
    ensures
        delta_lookup(delta_upsert(acc, script, sub, dv, dt), sc) == if sc == script {
            delta_step(delta_lookup(acc, sc), sub, dv, dt)
        } else {
            delta_lookup(acc, sc)
        },
    decreases acc.len(),
{
    let out = delta_upsert(acc, script, sub, dv, dt);
    if acc.len() == 0 {
        assert(out =~= seq![
            (
                script,
                sat_add_i64(
                    0,
                    if sub {
                        -(dv as int)
                    } else {
                        dv as int
                    },
                ),
                sat_add_i64(
                    0,
                    if sub {
                        -(dt as int)
                    } else {
                        dt as int
                    },
                ),
            ),
        ]);
        if sc != script {
            assert(delta_lookup(out, sc) == delta_lookup(out.skip(1), sc));
        }
    } else if acc[0].0 == script {
        assert(out.skip(1) =~= acc.skip(1));
        if sc != script {
        }
    } else {
        lemma_delta_upsert_lookup(acc.skip(1), script, sub, dv, dt, sc);
        assert(out =~= seq![acc[0]] + delta_upsert(acc.skip(1), script, sub, dv, dt));
        assert(out.skip(1) =~= delta_upsert(acc.skip(1), script, sub, dv, dt));
        if sc == acc[0].0 {
        } else {
            assert(delta_lookup(out, sc) == delta_lookup(out.skip(1), sc));
            assert(delta_lookup(acc, sc) == delta_lookup(acc.skip(1), sc));
        }
    }
}

/// The input fold moves one script's pair exactly as that script's own
/// contributions do.
proof fn lemma_deltas_inputs_lookup(
    acc: Seq<(Seq<u8>, i64, i64)>,
    inputs: Seq<TxInput>,
    sc: Seq<u8>,
)
    ensures
        delta_lookup(spec_deltas_inputs(acc, inputs), sc) == spec_script_delta_inputs(
            delta_lookup(acc, sc),
            inputs,
            sc,
        ),
    decreases inputs.len(),
{
    if inputs.len() > 0 {
        lemma_deltas_inputs_lookup(acc, inputs.drop_last(), sc);
        lemma_delta_upsert_lookup(
            spec_deltas_inputs(acc, inputs.drop_last()),
            inputs.last().previous_script@,
            true,
            inputs.last().value,
            spec_input_token_delta(inputs.last()),
            sc,
        );
    }
}

proof fn lemma_deltas_outputs_lookup(
    acc: Seq<(Seq<u8>, i64, i64)>,
    outputs: Seq<TxOutput>,
    sc: Seq<u8>,
)
    ensures
        delta_lookup(spec_deltas_outputs(acc, outputs), sc) == spec_script_delta_outputs(
            delta_lookup(acc, sc),
            outputs,
            sc,
        ),
    decreases outputs.len(),
{
    if outputs.len() > 0 {
        lemma_deltas_outputs_lookup(acc, outputs.drop_last(), sc);
        lemma_delta_upsert_lookup(
            spec_deltas_outputs(acc, outputs.drop_last()),
            outputs.last().pubkey_script@,
            false,
            outputs.last().value,
            spec_output_token_delta(outputs.last()),
            sc,
        );
    }
}

/// An upsert keeps the scripts distinct and never drops one.
proof fn lemma_delta_upsert_distinct(
    acc: Seq<(Seq<u8>, i64, i64)>,
    script: Seq<u8>,
    sub: bool,
    dv: i64,
    dt: i64,
)
    requires
        forall|i: int, j: int| 0 <= i < j < acc.len() ==> (#[trigger] acc[i]).0 != (
        #[trigger] acc[j]).0,
    ensures
        forall|i: int, j: int|
            0 <= i < j < delta_upsert(acc, script, sub, dv, dt).len() ==> (
            #[trigger] delta_upsert(acc, script, sub, dv, dt)[i]).0 != (#[trigger] delta_upsert(
                acc,
                script,
                sub,
                dv,
                dt,
            )[j]).0,
        forall|sc: Seq<u8>| #[trigger] delta_lookup(delta_upsert(acc, script, sub, dv, dt), sc)
            is Some <==> (sc == script || delta_lookup(acc, sc) is Some),
    decreases acc.len(),
{
    let out = delta_upsert(acc, script, sub, dv, dt);
    assert forall|sc: Seq<u8>| #[trigger] delta_lookup(out, sc) is Some <==> (sc == script
        || delta_lookup(acc, sc) is Some) by {
        lemma_delta_upsert_lookup(acc, script, sub, dv, dt, sc);
    }
    if acc.len() == 0 {
    } else if acc[0].0 == script {
        assert(out.skip(1) =~= acc.skip(1));
        assert forall|i: int, j: int| 0 <= i < j < out.len() implies (#[trigger] out[i]).0 != (
        #[trigger] out[j]).0 by {
            assert(out[i] == if i == 0 {
                out[0]
            } else {
                acc[i]
            });
            assert(out[j] == acc[j]);
        }
    } else {
        lemma_delta_upsert_distinct(acc.skip(1), script, sub, dv, dt);
        let tail = delta_upsert(acc.skip(1), script, sub, dv, dt);
        assert(out =~= seq![acc[0]] + tail);
        assert forall|i: int, j: int| 0 <= i < j < out.len() implies (#[trigger] out[i]).0 != (
        #[trigger] out[j]).0 by {
            if i == 0 {
                assert(out[j] == tail[j - 1]);
                assert(delta_lookup(tail, out[j].0) is Some) by {
                    lemma_delta_lookup_from_index(tail, j - 1);
                }
                assert(out[j].0 == script || delta_lookup(acc.skip(1), out[j].0) is Some);
                if delta_lookup(acc.skip(1), out[j].0) is Some {
                    lemma_delta_lookup_some_index(acc.skip(1), out[j].0);
                    let w = choose|w: int|
                        0 <= w < acc.skip(1).len() && (#[trigger] acc.skip(1)[w]).0 == out[j].0;
                    assert(acc[w + 1].0 == out[j].0);
                }
            } else {
                assert(out[i] == tail[i - 1] && out[j] == tail[j - 1]);
            }
        }
    }
}

/// A present index means a successful lookup for that script, and the other
/// way round.
proof fn lemma_delta_lookup_from_index(acc: Seq<(Seq<u8>, i64, i64)>, i: int)
    requires
        0 <= i < acc.len(),
    ensures
        delta_lookup(acc, acc[i].0) is Some,
    decreases i,
{
    if i > 0 && acc[0].0 != acc[i].0 {
        lemma_delta_lookup_from_index(acc.skip(1), i - 1);
        assert(acc.skip(1)[i - 1] == acc[i]);
    }
}

proof fn lemma_delta_lookup_some_index(acc: Seq<(Seq<u8>, i64, i64)>, sc: Seq<u8>)
    requires
        delta_lookup(acc, sc) is Some,
    ensures
        exists|i: int| 0 <= i < acc.len() && (#[trigger] acc[i]).0 == sc,
    decreases acc.len(),
{
    if acc.len() > 0 && acc[0].0 != sc {
        lemma_delta_lookup_some_index(acc.skip(1), sc);
        let w = choose|w: int| 0 <= w < acc.skip(1).len() && (#[trigger] acc.skip(1)[w]).0 == sc;
        assert(acc[w + 1].0 == sc);
    }
}

/// The fold keeps scripts distinct.
proof fn lemma_deltas_inputs_distinct(acc: Seq<(Seq<u8>, i64, i64)>, inputs: Seq<TxInput>)
    requires
        forall|i: int, j: int| 0 <= i < j < acc.len() ==> (#[trigger] acc[i]).0 != (
        #[trigger] acc[j]).0,
    ensures
        forall|i: int, j: int|
            0 <= i < j < spec_deltas_inputs(acc, inputs).len() ==> (#[trigger] spec_deltas_inputs(
                acc,
                inputs,
            )[i]).0 != (#[trigger] spec_deltas_inputs(acc, inputs)[j]).0,
    decreases inputs.len(),
{
    if inputs.len() > 0 {
        lemma_deltas_inputs_distinct(acc, inputs.drop_last());
        lemma_delta_upsert_distinct(
            spec_deltas_inputs(acc, inputs.drop_last()),
            inputs.last().previous_script@,
            true,
            inputs.last().value,
            spec_input_token_delta(inputs.last()),
        );
    }
}

proof fn lemma_deltas_outputs_distinct(acc: Seq<(Seq<u8>, i64, i64)>, outputs: Seq<TxOutput>)
    requires
        forall|i: int, j: int| 0 <= i < j < acc.len() ==> (#[trigger] acc[i]).0 != (
        #[trigger] acc[j]).0,
    ensures
        forall|i: int, j: int|
            0 <= i < j < spec_deltas_outputs(acc, outputs).len() ==> (
            #[trigger] spec_deltas_outputs(acc, outputs)[i]).0 != (#[trigger] spec_deltas_outputs(
                acc,
                outputs,
            )[j]).0,
    decreases outputs.len(),
{
    if outputs.len() > 0 {
        lemma_deltas_outputs_distinct(acc, outputs.drop_last());
        lemma_delta_upsert_distinct(
            spec_deltas_outputs(acc, outputs.drop_last()),
            outputs.last().pubkey_script@,
            false,
            outputs.last().value,
            spec_output_token_delta(outputs.last()),
        );
    }
}

/// Each row of a transaction's delta list is the unique row for its script,
/// and carries exactly that script's received-minus-spent totals (saturating,
/// outputs positive, inputs negative).
pub proof fn law_delta_row_is_received_minus_spent(tx: Transaction, j: int)
    requires
        0 <= j < spec_tx_deltas(tx).len(),
    ensures
        Some((spec_tx_deltas(tx)[j].1, spec_tx_deltas(tx)[j].2)) == spec_script_delta(
            tx,
            spec_tx_deltas(tx)[j].0,
        ),
        forall|i: int|
            0 <= i < spec_tx_deltas(tx).len() && i != j ==> (#[trigger] spec_tx_deltas(tx)[i]).0
                != spec_tx_deltas(tx)[j].0,
{
    let deltas = spec_tx_deltas(tx);
    let sc = deltas[j].0;
    lemma_deltas_inputs_distinct(Seq::empty(), tx.inputs@);
    lemma_deltas_outputs_distinct(spec_deltas_inputs(Seq::empty(), tx.inputs@), tx.outputs@);
    lemma_deltas_inputs_lookup(Seq::empty(), tx.inputs@, sc);
    lemma_deltas_outputs_lookup(spec_deltas_inputs(Seq::empty(), tx.inputs@), tx.outputs@, sc);
    lemma_delta_lookup_unique_row(deltas, j);
    assert forall|i: int| 0 <= i < deltas.len() && i != j implies (#[trigger] deltas[i]).0
        != deltas[j].0 by {
        if i < j {
        }
    }
}

/// With distinct scripts, lookup answers exactly the row's own pair.
proof fn lemma_delta_lookup_unique_row(acc: Seq<(Seq<u8>, i64, i64)>, j: int)
    requires
        0 <= j < acc.len(),
        forall|i: int, k: int| 0 <= i < k < acc.len() ==> (#[trigger] acc[i]).0 != (
        #[trigger] acc[k]).0,
    ensures
        delta_lookup(acc, acc[j].0) == Some((acc[j].1, acc[j].2)),
    decreases j,
{
    if j == 0 {
    } else {
        assert(acc[0].0 != acc[j].0);
        lemma_delta_lookup_unique_row(acc.skip(1), j - 1);
        assert(acc.skip(1)[j - 1] == acc[j]);
    }
}

/// The address/tx record bytes for one delta entry of `tx`.
pub open spec fn spec_addr_tx_bytes(tx: Transaction, ds: i64, dt: i64) -> Seq<u8> {
    enc_i64(tx.timestamp) + enc_i32(tx.block_height) + enc_i64(ds) + enc_i64(dt)
}

/// The address/tx writes: one record per delta entry whose script carries an
/// address.
pub open spec fn spec_addr_tx_ops(
    tx: Transaction,
    deltas: Seq<(Seq<u8>, i64, i64)>,
    is_mempool: bool,
) -> Seq<OpView>
    decreases deltas.len(),
{
    if deltas.len() == 0 {
        Seq::empty()
    } else {
        spec_addr_tx_ops(tx, deltas.drop_last(), is_mempool) + (if script_address(
            deltas.last().0,
        ) is Some {
            seq![
                OpView {
                    cf: if is_mempool {
                        CfId::MempoolAddrTxMeta
                    } else {
                        CfId::AddrTxMeta
                    },
                    key: spec_addr_tx_key(deltas.last().0, tx.block_height as u32, tx.hash@),
                    val: Some(spec_addr_tx_bytes(tx, deltas.last().1, deltas.last().2)),
                },
            ]
        } else {
            Seq::empty()
        })
    }
}

/// Append the address/tx writes for `tx`: accumulate the per-script deltas
/// over its inputs and outputs, then emit one record per address.
pub fn add_addr_tx_meta(batch: &mut Vec<WriteOp>, tx: &Transaction, is_mempool: bool)
    ensures
        ops_view(final(batch)@) =~~= ops_view(old(batch)@) + spec_addr_tx_ops(
            *tx,
            spec_tx_deltas(*tx),
            is_mempool,
        ),
{
    let mut entries: Vec<DeltaEntry> = Vec::new();
    let n_in: usize = tx.inputs.len();
    let mut i: usize = 0;
    while i < n_in
        invariant
            0 <= i <= n_in,
            n_in == tx.inputs@.len(),
            deltas_view(entries@) =~~= spec_deltas_inputs(
                Seq::empty(),
                tx.inputs@.subrange(0, i as int),
            ),
        decreases n_in - i,
    {
        proof {
            assert(tx.inputs@.subrange(0, i + 1).drop_last() =~= tx.inputs@.subrange(0, i as int));
            assert(tx.inputs@.subrange(0, i + 1).last() == tx.inputs@[i as int]);
        }
        let dt: i64 = match &tx.inputs[i].slp_token {
            Some(t) => #[verifier::truncate] (t.amount as i64),
            None => 0,
        };
        upsert_delta(&mut entries, &tx.inputs[i].previous_script, true, tx.inputs[i].value, dt);
        i = i + 1;
    }
    proof {
        assert(tx.inputs@.subrange(0, n_in as int) =~= tx.inputs@);
    }
    let n_out: usize = tx.outputs.len();
    let mut i: usize = 0;
    while i < n_out
        invariant
            0 <= i <= n_out,
            n_out == tx.outputs@.len(),
            deltas_view(entries@) =~~= spec_deltas_outputs(
                spec_deltas_inputs(Seq::empty(), tx.inputs@),
                tx.outputs@.subrange(0, i as int),
            ),
        decreases n_out - i,
    {
        proof {
            assert(tx.outputs@.subrange(0, i + 1).drop_last() =~= tx.outputs@.subrange(
                0,
                i as int,
            ));
            assert(tx.outputs@.subrange(0, i + 1).last() == tx.outputs@[i as int]);
        }
        let dt: i64 = match &tx.outputs[i].slp_token {
            Some(t) => #[verifier::truncate] (t.amount as i64),
            None => 0,
        };
        upsert_delta(&mut entries, &tx.outputs[i].pubkey_script, false, tx.outputs[i].value, dt);
        i = i + 1;
    }
    proof {
        assert(tx.outputs@.subrange(0, n_out as int) =~= tx.outputs@);
        assert(deltas_view(entries@) =~~= spec_tx_deltas(*tx));
    }
    let ghost all_deltas = deltas_view(entries@);
    let n: usize = entries.len();
    let mut i: usize = 0;
    while i < n
        invariant
            0 <= i <= n,
            n == entries@.len(),
            all_deltas =~~= deltas_view(entries@),
            ops_view(batch@) =~~= ops_view(old(batch)@) + spec_addr_tx_ops(
                *tx,
                all_deltas.subrange(0, i as int),
                is_mempool,
            ),
        decreases n - i,
    {
        proof {
            assert(all_deltas.subrange(0, i + 1).drop_last() =~= all_deltas.subrange(0, i as int));
            assert(all_deltas.subrange(0, i + 1).last() == all_deltas[i as int]);
            assert(all_deltas[i as int] == deltas_view(entries@)[i as int]);
        }
        if let Some(addr) = crate::script::script_to_address(entries[i].script.as_slice()) {
            let key = AddrTxKey {
                addr_type: addr.addr_type,
                addr_hash: addr.addr_hash,
                block_height: #[verifier::truncate] (tx.block_height as u32),
                tx_hash: tx.hash,
            };
            let addr_tx = crate::records::AddressTx {
                timestamp: tx.timestamp,
                block_height: tx.block_height,
                delta_sats: entries[i].delta_sats,
                delta_tokens: entries[i].delta_tokens,
            };
            let ghost prev = batch@;
            let op = WriteOp::Put {
                cf: if is_mempool {
                    CfId::MempoolAddrTxMeta
                } else {
                    CfId::AddrTxMeta
                },
                key: key.encode(),
                value: addr_tx.encode(),
            };
            let ghost opv = op.view();
            batch.push(op);
            proof {
                crate::db::lemma_ops_view_push(prev, batch@.last());
                assert(opv.key =~= spec_addr_tx_key(
                    all_deltas[i as int].0,
                    tx.block_height as u32,
                    tx.hash@,
                ));
                assert(opv.val->0 =~= spec_addr_tx_bytes(
                    *tx,
                    all_deltas[i as int].1,
                    all_deltas[i as int].2,
                ));
                assert(ops_view(batch@) =~~= ops_view(prev).push(opv));
            }
        }
        i = i + 1;
    }
    proof {
        assert(all_deltas.subrange(0, n as int) =~= all_deltas);
    }
}


/// All-zero group id used when a child genesis carries a malformed one.
pub open spec fn zero32() -> Seq<u8> {
    Seq::new(32, |_i: int| 0u8)
}

/// The stored group-id bytes of a child genesis.
pub open spec fn spec_group_bytes(g: crate::chain::GenesisInfo) -> Seq<u8> {
    if g.group_token_id@.len() == 32 {
        seq![1u8] + g.group_token_id@
    } else {
        seq![1u8] + zero32()
    }
}

/// The token record bytes written at a genesis.
pub open spec fn spec_token_meta_bytes(
    token_type: u32,
    g: crate::chain::GenesisInfo,
    group: Seq<u8>,
) -> Seq<u8> {
    le32(token_type) + le32(g.ticker@.len() as u32) + le32(g.name@.len() as u32) + le32(
        g.document_url@.len() as u32,
    ) + le32(g.document_hash@.len() as u32) + le32(g.decimals) + group + g.ticker@ + g.name@
        + g.document_url@ + g.document_hash@
}

/// The genesis combination a transaction carries, if any: the token type and
/// its metadata.
pub open spec fn spec_genesis_of(tx: Transaction) -> Option<(u32, crate::chain::GenesisInfo, bool)> {
    match tx.slp_transaction_info {
        Some(info) => {
            if info.token_id@.len() != 0 && info.validity_judgement == SlpValidity::Valid {
                match (info.slp_action, info.tx_metadata) {
                    (
                        SlpTxAction::SlpV1Genesis,
                        Some(crate::chain::TxMetadata::V1Genesis(g)),
                    ) => Some((0x01u32, g, false)),
                    (
                        SlpTxAction::SlpV1Nft1GroupGenesis,
                        Some(crate::chain::TxMetadata::V1Genesis(g)),
                    ) => Some((0x81u32, g, false)),
                    (
                        SlpTxAction::SlpV1Nft1UniqueChildGenesis,
                        Some(crate::chain::TxMetadata::V1Nft1ChildGenesis(g)),
                    ) => Some((0x41u32, g, true)),
                    _ => None,
                }
            } else {
                None
            }
        },
        None => None,
    }
}

/// The token record write of a transaction: present only for a valid genesis
/// of a supported kind, keyed by the token id.
pub open spec fn spec_token_meta_ops(tx: Transaction, is_mempool: bool) -> Seq<OpView> {
    match spec_genesis_of(tx) {
        Some((token_type, g, is_child)) => seq![
            OpView {
                cf: if is_mempool {
                    CfId::MempoolTokenMeta
                } else {
                    CfId::TokenMetaCf
                },
                key: tx.slp_transaction_info->0.token_id@,
                val: Some(
                    spec_token_meta_bytes(
                        token_type,
                        g,
                        if is_child {
                            spec_group_bytes(g)
                        } else {
                            seq![0u8]
                        },
                    ),
                ),
            },
        ],
        None => Seq::empty(),
    }
}

/// Whether the genesis metadata of `tx` (if any) fits the wire format.
pub open spec fn spec_genesis_ok(tx: Transaction) -> bool {
    match spec_genesis_of(tx) {
        Some((_t, g, _c)) => {
            &&& g.ticker@.len() <= u32::MAX
            &&& g.name@.len() <= u32::MAX
            &&& g.document_url@.len() <= u32::MAX
            &&& g.document_hash@.len() <= u32::MAX
        },
        None => true,
    }
}

/// Append the token record write for `tx`, if it is a valid genesis.
pub fn add_token_meta(batch: &mut Vec<WriteOp>, tx: &Transaction, is_mempool: bool) -> (r: Result<
    (),
    BatchError,
>)
    ensures
        r is Ok <==> spec_genesis_ok(*tx),
        r is Ok ==> ops_view(final(batch)@) =~~= ops_view(old(batch)@) + spec_token_meta_ops(
            *tx,
            is_mempool,
        ),
        r is Err ==> final(batch)@ == old(batch)@,
{
    let info = match &tx.slp_transaction_info {
        Some(info) => info,
        None => {
            return Ok(());
        },
    };
    if info.token_id.len() == 0 {
        return Ok(());
    }
    if info.validity_judgement != SlpValidity::Valid {
        return Ok(());
    }
    let (token_type, genesis, is_child): (u32, &crate::chain::GenesisInfo, bool) = match (
        info.slp_action,
        &info.tx_metadata,
    ) {
        (SlpTxAction::SlpV1Genesis, Some(crate::chain::TxMetadata::V1Genesis(g))) => (0x01, g, false),
        (SlpTxAction::SlpV1Nft1GroupGenesis, Some(crate::chain::TxMetadata::V1Genesis(g))) => (
            0x81,
            g,
            false,
        ),
        (
            SlpTxAction::SlpV1Nft1UniqueChildGenesis,
            Some(crate::chain::TxMetadata::V1Nft1ChildGenesis(g)),
        ) => (0x41, g, true),
        _ => {
            return Ok(());
        },
    };
    if genesis.ticker.len() > u32::MAX as usize || genesis.name.len() > u32::MAX as usize
        || genesis.document_url.len() > u32::MAX as usize || genesis.document_hash.len()
        > u32::MAX as usize {
        return Err(BatchError::Oversize);
    }
    let group_id: Option<[u8; 32]> = if is_child {
        if genesis.group_token_id.len() == 32 {
            Some(crate::keys::read_hash32(genesis.group_token_id.as_slice(), 0))
        } else {
            Some([0u8; 32])
        }
    } else {
        None
    };
    let meta = TokenMeta {
        token_type,
        token_ticker: crate::store::clone_bytes(&genesis.ticker),
        token_name: crate::store::clone_bytes(&genesis.name),
        token_document_url: crate::store::clone_bytes(&genesis.document_url),
        token_document_hash: crate::store::clone_bytes(&genesis.document_hash),
        decimals: genesis.decimals,
        group_id,
    };
    let ghost prev = batch@;
    let op = WriteOp::Put {
        cf: if is_mempool {
            CfId::MempoolTokenMeta
        } else {
            CfId::TokenMetaCf
        },
        key: crate::store::clone_bytes(&info.token_id),
        value: meta.encode(),
    };
    let ghost opv = op.view();
    batch.push(op);
    proof {
        crate::db::lemma_ops_view_push(prev, batch@.last());
        assert(opv.val->0 =~= spec_token_meta_bytes(
            token_type,
            *genesis,
            if is_child {
                spec_group_bytes(*genesis)
            } else {
                seq![0u8]
            },
        ));
        assert(ops_view(batch@) =~~= ops_view(old(batch)@) + spec_token_meta_ops(
            *tx,
            is_mempool,
        ));
    }
    Ok(())
}

/// Block-level saturating satoshi totals, accumulated input by input across
/// the whole block in order.
pub open spec fn spec_add_inputs(base: i64, inputs: Seq<TxInput>) -> i64
    decreases inputs.len(),
{
    if inputs.len() == 0 {
        base
    } else {
        sat_add_i64(spec_add_inputs(base, inputs.drop_last()) as int, inputs.last().value as int)
    }
}

pub open spec fn spec_add_outputs(base: i64, outputs: Seq<TxOutput>) -> i64
    decreases outputs.len(),
{
    if outputs.len() == 0 {
        base
    } else {
        sat_add_i64(spec_add_outputs(base, outputs.drop_last()) as int, outputs.last().value as int)
    }
}

pub open spec fn spec_block_sats_input(txs: Seq<Transaction>) -> i64
    decreases txs.len(),
{
    if txs.len() == 0 {
        0
    } else {
        spec_add_inputs(spec_block_sats_input(txs.drop_last()), txs.last().inputs@)
    }
}

pub open spec fn spec_block_sats_output(txs: Seq<Transaction>) -> i64
    decreases txs.len(),
{
    if txs.len() == 0 {
        0
    } else {
        spec_add_outputs(spec_block_sats_output(txs.drop_last()), txs.last().outputs@)
    }
}

/// The height-index write of a block.
pub open spec fn spec_height_op(info: BlockInfo) -> OpView {
    OpView { cf: CfId::BlockHeightIdx, key: be32(info.height as u32), val: Some(info.hash@) }
}

/// The block record bytes: header fields, aggregate satoshi totals, and the
/// coinbase script of the block's first transaction.
pub open spec fn spec_block_meta_bytes(info: BlockInfo, txs: Seq<Transaction>) -> Seq<u8> {
    enc_i32(info.height) + enc_i32(info.version) + info.previous_block@ + info.merkle_root@
        + enc_i64(info.timestamp) + le32(info.bits) + le32(info.nonce) + enc_i64(
        spec_block_sats_input(txs),
    ) + enc_i64(spec_block_sats_output(txs)) + le64(info.difficulty_bits) + enc_i64(
        info.median_time,
    ) + le64(info.size as u64) + le64(txs.len() as u64) + le32(
        txs[0].inputs@[0].signature_script@.len() as u32,
    ) + txs[0].inputs@[0].signature_script@
}

pub open spec fn spec_block_meta_op(info: BlockInfo, txs: Seq<Transaction>) -> OpView {
    OpView { cf: CfId::BlockMetaCf, key: info.hash@, val: Some(spec_block_meta_bytes(info, txs)) }
}

/// Append the height-index write.
pub fn add_block_height_idx(batch: &mut Vec<WriteOp>, info: &BlockInfo)
    ensures
        ops_view(final(batch)@) =~~= ops_view(old(batch)@).push(spec_height_op(*info)),
{
    let height: u32 = #[verifier::truncate] (info.height as u32);
    let key = crate::keys::encode_height_key(height);
    let value = crate::codec::read_vec(info.hash.as_slice(), 0, 32);
    let ghost prev = batch@;
    let op = WriteOp::Put { cf: CfId::BlockHeightIdx, key, value };
    let ghost opv = op.view();
    batch.push(op);
    proof {
        crate::db::lemma_ops_view_push(prev, batch@.last());
        assert(opv.val->0 =~= info.hash@);
        assert(ops_view(batch@) =~~= ops_view(old(batch)@).push(spec_height_op(*info)));
    }
}

/// Append the block record write, aggregating the satoshi totals across the
/// block's transactions.
pub fn add_block_meta(batch: &mut Vec<WriteOp>, info: &BlockInfo, txs: &Vec<Transaction>) -> (r:
    Result<(), BatchError>)
    requires
        txs@.len() > 0,
        txs@[0].inputs@.len() > 0,
        txs@.len() <= u64::MAX,
    ensures
        r is Ok <==> txs@[0].inputs@[0].signature_script@.len() <= u32::MAX,
        r is Ok ==> ops_view(final(batch)@) =~~= ops_view(old(batch)@).push(
            spec_block_meta_op(*info, txs@),
        ),
        r is Err ==> final(batch)@ == old(batch)@,
{
    let mut total_in: i64 = 0;
    let mut total_out: i64 = 0;
    let n: usize = txs.len();
    let mut t: usize = 0;
    while t < n
        invariant
            0 <= t <= n,
            n == txs@.len(),
            total_in == spec_block_sats_input(txs@.subrange(0, t as int)),
            total_out == spec_block_sats_output(txs@.subrange(0, t as int)),
        decreases n - t,
    {
        proof {
            assert(txs@.subrange(0, t + 1).drop_last() =~= txs@.subrange(0, t as int));
            assert(txs@.subrange(0, t + 1).last() == txs@[t as int]);
        }
        let tx = &txs[t];
        let m_in: usize = tx.inputs.len();
        let mut i: usize = 0;
        let ghost base_in = total_in;
        while i < m_in
            invariant
                0 <= i <= m_in,
                m_in == tx.inputs@.len(),
                tx == txs@[t as int],
                0 <= t < txs@.len(),
                total_in == spec_add_inputs(base_in, tx.inputs@.subrange(0, i as int)),
            decreases m_in - i,
        {
            proof {
                assert(tx.inputs@.subrange(0, i + 1).drop_last() =~= tx.inputs@.subrange(
                    0,
                    i as int,
                ));
                assert(tx.inputs@.subrange(0, i + 1).last() == tx.inputs@[i as int]);
            }
            total_in = sat_add(total_in, tx.inputs[i].value);
            i = i + 1;
        }
        proof {
            assert(tx.inputs@.subrange(0, m_in as int) =~= tx.inputs@);
        }
        let m_out: usize = tx.outputs.len();
        let mut i: usize = 0;
        let ghost base_out = total_out;
        while i < m_out
            invariant
                0 <= i <= m_out,
                m_out == tx.outputs@.len(),
                tx == txs@[t as int],
                0 <= t < txs@.len(),
                total_out == spec_add_outputs(base_out, tx.outputs@.subrange(0, i as int)),
            decreases m_out - i,
        {
            proof {
                assert(tx.outputs@.subrange(0, i + 1).drop_last() =~= tx.outputs@.subrange(
                    0,
                    i as int,
                ));
                assert(tx.outputs@.subrange(0, i + 1).last() == tx.outputs@[i as int]);
            }
            total_out = sat_add(total_out, tx.outputs[i].value);
            i = i + 1;
        }
        proof {
            assert(tx.outputs@.subrange(0, m_out as int) =~= tx.outputs@);
        }
        t = t + 1;
    }
    proof {
        assert(txs@.subrange(0, n as int) =~= txs@);
    }
    if txs[0].inputs[0].signature_script.len() > u32::MAX as usize {
        return Err(BatchError::Oversize);
    }
    let coinbase_data = crate::store::clone_bytes(&txs[0].inputs[0].signature_script);
    let meta = crate::records::BlockMeta {
        height: info.height,
        version: info.version,
        previous_block: info.previous_block,
        merkle_root: info.merkle_root,
        timestamp: info.timestamp,
        bits: info.bits,
        nonce: info.nonce,
        total_sats_input: total_in,
        total_sats_output: total_out,
        difficulty_bits: info.difficulty_bits,
        median_time: info.median_time,
        size: #[verifier::truncate] (info.size as u64),
        num_txs: n as u64,
        coinbase_data,
    };
    let key = crate::codec::read_vec(info.hash.as_slice(), 0, 32);
    let value = meta.encode();
    let ghost prev = batch@;
    let op = WriteOp::Put { cf: CfId::BlockMetaCf, key, value };
    let ghost opv = op.view();
    batch.push(op);
    proof {
        crate::db::lemma_ops_view_push(prev, batch@.last());
        assert(opv.key =~= info.hash@);
        assert(opv.val->0 =~= spec_block_meta_bytes(*info, txs@));
        assert(ops_view(batch@) =~~= ops_view(old(batch)@).push(spec_block_meta_op(*info, txs@)));
    }
    Ok(())
}


/// A fetched tx slot actually carries a transaction.
pub open spec fn spec_td_ok(d: crate::chain::TransactionData) -> bool {
    d.txids_or_txs matches Some(TxidsOrTxs::Transaction(_t))
}

pub open spec fn spec_tx_of(d: crate::chain::TransactionData) -> Transaction
    recommends
        spec_td_ok(d),
{
    d.txids_or_txs->0->Transaction_0
}

pub open spec fn spec_txs_of(td: Seq<crate::chain::TransactionData>) -> Seq<Transaction> {
    td.map(|_i: int, d: crate::chain::TransactionData| spec_tx_of(d))
}

/// Take the transactions out of the fetched slots, failing if any slot
/// carries only a hash.
pub fn extract_txs(td: Vec<crate::chain::TransactionData>) -> (r: Result<
    Vec<Transaction>,
    BatchError,
>)
    ensures
        r is Ok <==> (forall|i: int| 0 <= i < td@.len() ==> spec_td_ok(#[trigger] td@[i])),
        r matches Ok(txs) ==> txs@ =~= spec_txs_of(td@),
        r is Err ==> r == Err::<Vec<Transaction>, BatchError>(BatchError::InvalidTx),
{
    let n: usize = td.len();
    let mut t: usize = 0;
    while t < n
        invariant
            0 <= t <= n,
            n == td@.len(),
            forall|i: int| 0 <= i < t ==> spec_td_ok(#[trigger] td@[i]),
        decreases n - t,
    {
        match &td[t].txids_or_txs {
            Some(TxidsOrTxs::Transaction(_t)) => {},
            _ => {
                return Err(BatchError::InvalidTx);
            },
        }
        t = t + 1;
    }
    let ghost orig = td@;
    let mut rest = td;
    let mut rev: Vec<Transaction> = Vec::new();
    while rest.len() > 0
        invariant
            rest@ =~= orig.subrange(0, rest@.len() as int),
            rev@.len() + rest@.len() == orig.len(),
            forall|i: int| 0 <= i < orig.len() ==> spec_td_ok(#[trigger] orig[i]),
            forall|k: int| 0 <= k < rev@.len() ==> rev@[k] == spec_tx_of(
                #[trigger] orig[orig.len() - 1 - k],
            ),
        decreases rest@.len(),
    {
        let ghost pre = rest@;
        let d = rest.pop().unwrap();
        proof {
            assert(d == orig[rest@.len() as int]);
            assert(spec_td_ok(orig[rest@.len() as int]));
        }
        match d.txids_or_txs {
            Some(TxidsOrTxs::Transaction(t2)) => {
                rev.push(t2);
            },
            _ => {
                proof {
                    assert(false);
                }
            },
        }
    }
    let mut txs: Vec<Transaction> = Vec::new();
    while rev.len() > 0
        invariant
            txs@.len() + rev@.len() == orig.len(),
            forall|k: int| 0 <= k < rev@.len() ==> rev@[k] == spec_tx_of(
                #[trigger] orig[orig.len() - 1 - k],
            ),
            forall|k: int| 0 <= k < txs@.len() ==> txs@[k] == spec_tx_of(#[trigger] orig[k]),
        decreases rev@.len(),
    {
        let ghost pre_rev = rev@;
        let t2 = rev.pop().unwrap();
        proof {
            let k = pre_rev.len() - 1;
            assert(t2 == pre_rev[k as int]);
            assert(pre_rev[k as int] == spec_tx_of(orig[orig.len() - 1 - k]));
            assert(t2 == spec_tx_of(orig[orig.len() - pre_rev.len()]));
            assert(txs@.len() == orig.len() - pre_rev.len());
        }
        txs.push(t2);
    }
    proof {
        assert(txs@ =~= spec_txs_of(orig));
    }
    Ok(txs)
}

/// The per-transaction writes of a batch: the tx record, the address rows,
/// the spend edges, and a token record at a genesis.
pub open spec fn spec_per_tx_ops(txs: Seq<Transaction>, is_mempool: bool) -> Seq<OpView>
    decreases txs.len(),
{
    if txs.len() == 0 {
        Seq::empty()
    } else {
        spec_per_tx_ops(txs.drop_last(), is_mempool) + seq![
            spec_tx_meta_op(txs.last(), is_mempool),
        ] + spec_addr_tx_ops(txs.last(), spec_tx_deltas(txs.last()), is_mempool)
            + spec_tx_out_spend_ops(txs.last().hash@, txs.last().inputs@, is_mempool)
            + spec_token_meta_ops(txs.last(), is_mempool)
    }
}

/// Everything a confirmed block writes, in order.
pub open spec fn spec_block_ops(info: BlockInfo, txs: Seq<Transaction>) -> Seq<OpView> {
    seq![spec_height_op(info), spec_block_meta_op(info, txs)] + spec_addr_utxo_ops_all(txs, false)
        + spec_utxo_ops_all(txs, false) + spec_per_tx_ops(txs, false)
}

/// Everything a set of mempool transactions writes, in order.
pub open spec fn spec_mempool_ops(txs: Seq<Transaction>) -> Seq<OpView> {
    spec_addr_utxo_ops_all(txs, true) + spec_utxo_ops_all(txs, true) + spec_per_tx_ops(txs, true)
}

/// Every transaction of the slice passes the builders' checks.
pub open spec fn spec_txs_ok(txs: Seq<Transaction>) -> bool {
    &&& spec_utxo_txs_ok(txs)
    &&& forall|i: int| 0 <= i < txs.len() ==> {
        &&& (#[trigger] txs[i]).inputs@.len() > 0
        &&& txs[i].inputs@.len() <= u32::MAX
        &&& txs[i].inputs@[0].outpoint is Some
        &&& classifiable(txs[i])
        &&& spec_genesis_ok(txs[i])
    }
}

/// A block the builder accepts: info present, whole transactions only, at
/// least the coinbase, and every transaction indexable.
pub open spec fn spec_block_ok(block: Block) -> bool {
    &&& block.info is Some
    &&& (forall|i: int| 0 <= i < block.transaction_data@.len() ==> spec_td_ok(
        #[trigger] block.transaction_data@[i],
    ))
    &&& spec_txs_of(block.transaction_data@).len() > 0
    &&& spec_txs_ok(spec_txs_of(block.transaction_data@))
    &&& spec_txs_of(block.transaction_data@)[0].inputs@[0].signature_script@.len() <= u32::MAX
    &&& block.transaction_data@.len() <= u64::MAX
}

/// Append the per-transaction writes for `txs`.
#[verifier::rlimit(90)]
fn add_per_tx_ops(batch: &mut Vec<WriteOp>, txs: &Vec<Transaction>, is_mempool: bool) -> (r: Result<
    (),
    BatchError,
>)
    requires
        spec_txs_ok(txs@),
    ensures
        r is Ok,
        ops_view(final(batch)@) =~~= ops_view(old(batch)@) + spec_per_tx_ops(txs@, is_mempool),
{
    let n: usize = txs.len();
    let mut t: usize = 0;
    while t < n
        invariant
            0 <= t <= n,
            n == txs@.len(),
            spec_txs_ok(txs@),
            ops_view(batch@) =~~= ops_view(old(batch)@) + spec_per_tx_ops(
                txs@.subrange(0, t as int),
                is_mempool,
            ),
        decreases n - t,
    {
        proof {
            assert(txs@.subrange(0, t + 1).drop_last() =~= txs@.subrange(0, t as int));
            assert(txs@.subrange(0, t + 1).last() == txs@[t as int]);
        }
        let tx = &txs[t];
        let tx_meta_result = add_tx_meta(batch, tx, is_mempool);
        proof {
            assert(tx_meta_result is Ok);
        }
        add_addr_tx_meta(batch, tx, is_mempool);
        add_tx_out_spend(batch, tx, is_mempool);
        let token_result = add_token_meta(batch, tx, is_mempool);
        proof {
            assert(token_result is Ok);
        }
        t = t + 1;
    }
    proof {
        assert(txs@.subrange(0, n as int) =~= txs@);
    }
    Ok(())
}

/// Build the atomic batch of one confirmed block.
#[verifier::rlimit(90)]
pub fn make_block_batches(block: Block) -> (r: Result<BlockBatches, BatchError>)
    ensures
        r is Ok <==> spec_block_ok(block),
        r matches Ok(bb) ==> {
            &&& bb.block_height == block.info->0.height
            &&& ops_view(bb.batch@) =~~= spec_block_ops(
                block.info->0,
                spec_txs_of(block.transaction_data@),
            )
        },
{
    let ghost the_block = block;
    let info = match block.info {
        Some(info) => info,
        None => {
            return Err(BatchError::NoBlockInfo);
        },
    };
    let txs = match extract_txs(block.transaction_data) {
        Ok(txs) => txs,
        Err(e) => {
            return Err(e);
        },
    };
    proof {
        assert(txs@ == spec_txs_of(the_block.transaction_data@));
    }
    if txs.len() == 0 {
        return Err(BatchError::NoTxs);
    }
    // validate the per-tx conditions up front, so failure leaves nothing behind
    match check_txs(&txs) {
        Ok(()) => {},
        Err(e) => {
            return Err(e);
        },
    }
    if txs[0].inputs[0].signature_script.len() > u32::MAX as usize {
        return Err(BatchError::Oversize);
    }
    let n: usize = txs.len();
    let mut batch: Vec<WriteOp> = Vec::new();
    add_block_height_idx(&mut batch, &info);
    let r_meta = add_block_meta(&mut batch, &info, &txs);
    proof {
        assert(r_meta is Ok);
    }
    update_addr_utxo_set(&mut batch, &txs, false);
    let r_utxo = update_utxo_set(&mut batch, &txs, false);
    proof {
        assert(r_utxo is Ok);
    }
    let r_per_tx = add_per_tx_ops(&mut batch, &txs, false);
    proof {
        assert(r_per_tx is Ok);
        assert(ops_view(batch@) =~~= spec_block_ops(info, txs@));
    }
    Ok(BlockBatches { block_height: info.height, batch })
}

/// Check a whole slice of transactions.
#[verifier::rlimit(60)]
fn check_txs(txs: &Vec<Transaction>) -> (r: Result<(), BatchError>)
    ensures
        r is Ok <==> spec_txs_ok(txs@),
{
    let n: usize = txs.len();
    let mut t: usize = 0;
    while t < n
        invariant
            0 <= t <= n,
            n == txs@.len(),
            forall|i: int| 0 <= i < t ==> tx_checked(#[trigger] txs@[i]),
        decreases n - t,
    {
        match check_tx(&txs[t]) {
            Ok(()) => {},
            Err(e) => {
                return Err(e);
            },
        }
        t = t + 1;
    }
    Ok(())
}

/// The conjunction `check_tx` tests.
pub open spec fn tx_checked(tx: Transaction) -> bool {
    &&& tx.inputs@.len() > 0
    &&& tx.inputs@.len() <= u32::MAX
    &&& tx.inputs@[0].outpoint is Some
    &&& classifiable(tx)
    &&& spec_genesis_ok(tx)
    &&& tx.outputs@.len() <= u32::MAX
    &&& (match tx.slp_transaction_info {
        Some(info) => info.token_id@.len() == 32 || info.token_id@.len() == 0,
        None => true,
    })
}

/// Check one transaction against the builders' conditions.
fn check_tx(tx: &Transaction) -> (r: Result<(), BatchError>)
    ensures
        r is Ok <==> tx_checked(*tx),
{
    if tx.inputs.len() == 0 {
        return Err(BatchError::NoInput);
    }
    if tx.inputs.len() > u32::MAX as usize {
        return Err(BatchError::Oversize);
    }
    if tx.inputs[0].outpoint.is_none() {
        return Err(BatchError::NoOutpoint);
    }
    if tx.outputs.len() > u32::MAX as usize {
        return Err(BatchError::Oversize);
    }
    match &tx.slp_transaction_info {
        Some(info) => {
            if info.token_id.len() != 32 && info.token_id.len() != 0 {
                return Err(BatchError::BadTokenId);
            }
            if info.validity_judgement == SlpValidity::Valid {
                if info.token_id.len() != 0 {
                    match (info.slp_action, &info.tx_metadata) {
                        (SlpTxAction::SlpV1Genesis, Some(crate::chain::TxMetadata::V1Genesis(g)))
                            | (
                            SlpTxAction::SlpV1Nft1GroupGenesis,
                            Some(crate::chain::TxMetadata::V1Genesis(g)),
                        ) | (
                            SlpTxAction::SlpV1Nft1UniqueChildGenesis,
                            Some(crate::chain::TxMetadata::V1Nft1ChildGenesis(g)),
                        ) => {
                            if g.ticker.len() > u32::MAX as usize || g.name.len()
                                > u32::MAX as usize || g.document_url.len() > u32::MAX as usize
                                || g.document_hash.len() > u32::MAX as usize {
                                return Err(BatchError::Oversize);
                            }
                        },
                        _ => {},
                    }
                }
                let supported: bool = match info.slp_action {
                    SlpTxAction::NonSlp | SlpTxAction::NonSlpBurn | SlpTxAction::SlpParseError
                        | SlpTxAction::SlpUnsupportedVersion => false,
                    _ => true,
                };
                if supported && info.token_id.len() != 32 {
                    return Err(BatchError::BadTokenId);
                }
            }
        },
        None => {},
    }
    Ok(())
}

/// Build the atomic batch for a set of mempool transactions.
pub fn make_mempool_tx_batches(txs: &Vec<Transaction>) -> (r: Result<Vec<WriteOp>, BatchError>)
    ensures
        r is Ok <==> spec_txs_ok(txs@),
        r matches Ok(batch) ==> ops_view(batch@) =~~= spec_mempool_ops(txs@),
{
    match check_txs(txs) {
        Ok(()) => {},
        Err(e) => {
            return Err(e);
        },
    }
    let mut batch: Vec<WriteOp> = Vec::new();
    update_addr_utxo_set(&mut batch, txs, true);
    let r_utxo = update_utxo_set(&mut batch, txs, true);
    proof {
        assert(r_utxo is Ok);
    }
    let r_per_tx = add_per_tx_ops(&mut batch, txs, true);
    proof {
        assert(r_per_tx is Ok);
        assert(ops_view(batch@) =~~= spec_mempool_ops(txs@));
    }
    Ok(batch)
}

/// Take the transactions out of a mempool listing.
pub fn make_mempool_txs(td: Vec<crate::chain::TransactionData>) -> (r: Result<
    Vec<Transaction>,
    BatchError,
>)
    ensures
        r is Ok <==> (forall|i: int| 0 <= i < td@.len() ==> spec_td_ok(#[trigger] td@[i])),
        r matches Ok(txs) ==> txs@ =~= spec_txs_of(td@),
{
    extract_txs(td)
}

} // verus!
