//! Cross-component guarantees, stated once over the spec-level models and
//! proved for every input: what a committed block makes queryable, the
//! overlay's hiding rule, and what a mempool resync leaves behind.

use vstd::prelude::*;

use crate::chain::{BlockInfo, Transaction};
use crate::db::{IndexDb, CfId, OpView, ops_lookup, is_mempool_cf};
use crate::keys::be32;
use crate::schema::{spec_block_ops, spec_block_meta_bytes, spec_height_op, spec_block_meta_op,
    spec_addr_utxo_ops_all, spec_addr_utxo_puts_all, spec_addr_utxo_removes_all, spec_utxo_ops_all,
    spec_utxo_puts_all, spec_utxo_removes_all, spec_per_tx_ops, spec_addr_tx_ops, spec_tx_deltas,
    spec_tx_out_spend_ops, spec_token_meta_ops, spec_mempool_ops, spec_addr_tx_key};
use crate::script::script_address;

verus! {

/// A write list whose targets all satisfy `cf_ok` leaves other families
/// untouched; combined with [`ops_lookup`] reasoning below.
pub open spec fn ops_target_confirmed_data(ops: Seq<OpView>) -> bool {
    forall|i: int| 0 <= i < ops.len() ==> (#[trigger] ops[i]).cf != CfId::BlockHeightIdx && ops[i].cf
        != CfId::BlockMetaCf
}

proof fn lemma_addr_utxo_puts_cfs(tx_hash: Seq<u8>, outputs: Seq<crate::chain::TxOutput>)
    ensures
        ops_target_confirmed_data(crate::schema::spec_addr_utxo_put_ops(tx_hash, outputs, false)),
    decreases outputs.len(),
{
    if outputs.len() > 0 {
        lemma_addr_utxo_puts_cfs(tx_hash, outputs.drop_last());
    }
}

proof fn lemma_addr_utxo_removes_cfs(inputs: Seq<crate::chain::TxInput>)
    ensures
        ops_target_confirmed_data(crate::schema::spec_addr_utxo_remove_ops(inputs, false)),
    decreases inputs.len(),
{
    if inputs.len() > 0 {
        lemma_addr_utxo_removes_cfs(inputs.drop_last());
    }
}

proof fn lemma_utxo_puts_cfs(tx: Transaction, outputs: Seq<crate::chain::TxOutput>)
    ensures
        ops_target_confirmed_data(crate::schema::spec_utxo_put_ops(tx, outputs, false)),
    decreases outputs.len(),
{
    if outputs.len() > 0 {
        lemma_utxo_puts_cfs(tx, outputs.drop_last());
    }
}

proof fn lemma_utxo_removes_cfs(inputs: Seq<crate::chain::TxInput>)
    ensures
        ops_target_confirmed_data(crate::schema::spec_utxo_remove_ops(inputs, false)),
    decreases inputs.len(),
{
    if inputs.len() > 0 {
        lemma_utxo_removes_cfs(inputs.drop_last());
    }
}

proof fn lemma_spend_ops_cfs(tx_hash: Seq<u8>, inputs: Seq<crate::chain::TxInput>)
    ensures
        ops_target_confirmed_data(spec_tx_out_spend_ops(tx_hash, inputs, false)),
    decreases inputs.len(),
{
    if inputs.len() > 0 {
        lemma_spend_ops_cfs(tx_hash, inputs.drop_last());
    }
}

proof fn lemma_addr_tx_ops_cfs(tx: Transaction, deltas: Seq<(Seq<u8>, i64, i64)>)
    ensures
        ops_target_confirmed_data(spec_addr_tx_ops(tx, deltas, false)),
    decreases deltas.len(),
{
    if deltas.len() > 0 {
        lemma_addr_tx_ops_cfs(tx, deltas.drop_last());
    }
}

proof fn lemma_per_tx_ops_cfs(txs: Seq<Transaction>)
    ensures
        ops_target_confirmed_data(spec_per_tx_ops(txs, false)),
    decreases txs.len(),
{
    if txs.len() > 0 {
        lemma_per_tx_ops_cfs(txs.drop_last());
        lemma_addr_tx_ops_cfs(txs.last(), spec_tx_deltas(txs.last()));
        lemma_spend_ops_cfs(txs.last().hash@, txs.last().inputs@);
    }
}

proof fn lemma_body_ops_cfs(txs: Seq<Transaction>)
    ensures
        ops_target_confirmed_data(
            spec_addr_utxo_ops_all(txs, false) + spec_utxo_ops_all(txs, false) + spec_per_tx_ops(
                txs,
                false,
            ),
        ),
{
    lemma_addr_utxo_all_cfs(txs);
    lemma_utxo_all_cfs(txs);
    lemma_per_tx_ops_cfs(txs);
}

proof fn lemma_addr_utxo_all_cfs(txs: Seq<Transaction>)
    ensures
        ops_target_confirmed_data(spec_addr_utxo_ops_all(txs, false)),
    decreases txs.len(),
{
    lemma_addr_utxo_puts_all_cfs(txs);
    lemma_addr_utxo_removes_all_cfs(txs);
}

proof fn lemma_addr_utxo_puts_all_cfs(txs: Seq<Transaction>)
    ensures
        ops_target_confirmed_data(spec_addr_utxo_puts_all(txs, false)),
    decreases txs.len(),
{
    if txs.len() > 0 {
        lemma_addr_utxo_puts_all_cfs(txs.drop_last());
        lemma_addr_utxo_puts_cfs(txs.last().hash@, txs.last().outputs@);
    }
}

proof fn lemma_addr_utxo_removes_all_cfs(txs: Seq<Transaction>)
    ensures
        ops_target_confirmed_data(spec_addr_utxo_removes_all(txs, false)),
    decreases txs.len(),
{
    if txs.len() > 0 {
        lemma_addr_utxo_removes_all_cfs(txs.drop_last());
        lemma_addr_utxo_removes_cfs(txs.last().inputs@);
    }
}

proof fn lemma_utxo_all_cfs(txs: Seq<Transaction>)
    ensures
        ops_target_confirmed_data(spec_utxo_ops_all(txs, false)),
{
    lemma_utxo_puts_all_cfs(txs);
    lemma_utxo_removes_all_cfs(txs);
}

proof fn lemma_utxo_puts_all_cfs(txs: Seq<Transaction>)
    ensures
        ops_target_confirmed_data(spec_utxo_puts_all(txs, false)),
    decreases txs.len(),
{
    if txs.len() > 0 {
        lemma_utxo_puts_all_cfs(txs.drop_last());
        lemma_utxo_puts_cfs(txs.last(), txs.last().outputs@);
    }
}

proof fn lemma_utxo_removes_all_cfs(txs: Seq<Transaction>)
    ensures
        ops_target_confirmed_data(spec_utxo_removes_all(txs, false)),
    decreases txs.len(),
{
    if txs.len() > 0 {
        lemma_utxo_removes_all_cfs(txs.drop_last());
        lemma_utxo_removes_cfs(txs.last().inputs@);
    }
}

/// Writes that target neither header family leave both untouched.
proof fn lemma_ops_lookup_skips(ops: Seq<OpView>, id: CfId, k: Seq<u8>, base: Option<Seq<u8>>)
    requires
        ops_target_confirmed_data(ops),
        id == CfId::BlockHeightIdx || id == CfId::BlockMetaCf,
    ensures
        ops_lookup(ops, id, k, base) == base,
    decreases ops.len(),
{
    if ops.len() > 0 {
        lemma_ops_lookup_skips(ops.drop_last(), id, k, base);
    }
}

/// Once a block's batch is applied, the height index answers the block's
/// hash at its height, and the block record stored under that hash carries
/// the block's own height in its leading field — for every committed block.
#[verifier::rlimit(90)]
#[verifier::spinoff_prover]
pub proof fn law_committed_block_queryable(
    db0: IndexDb,
    db1: IndexDb,
    info: BlockInfo,
    txs: Seq<Transaction>,
)
    requires
        forall|id: CfId, k: Seq<u8>| #[trigger] db1.at(id, k) == ops_lookup(
            spec_block_ops(info, txs),
            id,
            k,
            db0.at(id, k),
        ),
        txs.len() > 0,
        txs[0].inputs@.len() > 0,
    ensures
        db1.at(CfId::BlockHeightIdx, be32(info.height as u32)) == Some(info.hash@),
        db1.at(CfId::BlockMetaCf, info.hash@) == Some(spec_block_meta_bytes(info, txs)),
        crate::codec::dec_i32(spec_block_meta_bytes(info, txs).subrange(0, 4)) == info.height,
{
    let head = seq![spec_height_op(info), spec_block_meta_op(info, txs)];
    let body = spec_addr_utxo_ops_all(txs, false) + spec_utxo_ops_all(txs, false)
        + spec_per_tx_ops(txs, false);
    assert(spec_block_ops(info, txs) =~= head + body);
    lemma_body_ops_cfs(txs);
    let hk = be32(info.height as u32);
    crate::db::lemma_ops_lookup_concat(head, body, CfId::BlockHeightIdx, hk, db0.at(CfId::BlockHeightIdx, hk));
    lemma_ops_lookup_skips(body, CfId::BlockHeightIdx, hk, ops_lookup(head, CfId::BlockHeightIdx, hk, db0.at(CfId::BlockHeightIdx, hk)));
    let ghost base_h = db0.at(CfId::BlockHeightIdx, hk);
    let single = seq![spec_height_op(info)];
    assert(head.drop_last() =~= single);
    assert(head.len() == 2);
    assert(head.last() == spec_block_meta_op(info, txs));
    assert(spec_block_meta_op(info, txs).cf == CfId::BlockMetaCf);
    assert(ops_lookup(head, CfId::BlockHeightIdx, hk, base_h) == ops_lookup(
        single,
        CfId::BlockHeightIdx,
        hk,
        base_h,
    ));
    assert(single.last() == spec_height_op(info));
    assert(spec_height_op(info).cf == CfId::BlockHeightIdx);
    assert(spec_height_op(info).key == hk);
    assert(ops_lookup(single, CfId::BlockHeightIdx, hk, base_h) == Some(info.hash@));
    crate::db::lemma_ops_lookup_concat(head, body, CfId::BlockMetaCf, info.hash@, db0.at(CfId::BlockMetaCf, info.hash@));
    lemma_ops_lookup_skips(body, CfId::BlockMetaCf, info.hash@, ops_lookup(head, CfId::BlockMetaCf, info.hash@, db0.at(CfId::BlockMetaCf, info.hash@)));
    assert(ops_lookup(head, CfId::BlockMetaCf, info.hash@, db0.at(CfId::BlockMetaCf, info.hash@))
        == Some(spec_block_meta_bytes(info, txs)));
    assert(spec_block_meta_bytes(info, txs).subrange(0, 4) =~= crate::codec::enc_i32(info.height));
    crate::codec::lemma_i32_round_trip(info.height);
}

/// A write list all of whose rows for one family are puts keeps any key it
/// puts present.
proof fn lemma_ops_lookup_put_stays(ops: Seq<OpView>, id: CfId, k: Seq<u8>, base: Option<Seq<u8>>)
    requires
        exists|i: int| 0 <= i < ops.len() && (#[trigger] ops[i]).cf == id && ops[i].key == k
            && ops[i].val is Some,
        forall|i: int| 0 <= i < ops.len() && (#[trigger] ops[i]).cf == id && ops[i].key == k
            ==> ops[i].val is Some,
    ensures
        ops_lookup(ops, id, k, base) is Some,
    decreases ops.len(),
{
    let wi = choose|i: int|
        0 <= i < ops.len() && (#[trigger] ops[i]).cf == id && ops[i].key == k && ops[i].val
            is Some;
    if ops.last().cf == id && ops.last().key == k {
    } else {
        assert(wi < ops.len() - 1);
        assert(ops.drop_last()[wi] == ops[wi]);
        lemma_ops_lookup_put_stays(ops.drop_last(), id, k, base);
    }
}

/// The address/tx writes of one transaction put exactly the keys of its
/// address-carrying delta entries, and never delete.
proof fn lemma_addr_tx_ops_shape(tx: Transaction, deltas: Seq<(Seq<u8>, i64, i64)>, j: int)
    requires
        0 <= j < deltas.len(),
        script_address(deltas[j].0) is Some,
    ensures
        exists|i: int|
            0 <= i < spec_addr_tx_ops(tx, deltas, false).len() && (#[trigger] spec_addr_tx_ops(
                tx,
                deltas,
                false,
            )[i]).cf == CfId::AddrTxMeta && spec_addr_tx_ops(tx, deltas, false)[i].key
                == spec_addr_tx_key(deltas[j].0, tx.block_height as u32, tx.hash@)
                && spec_addr_tx_ops(tx, deltas, false)[i].val is Some,
    decreases deltas.len(),
{
    let ops = spec_addr_tx_ops(tx, deltas, false);
    if j == deltas.len() - 1 {
        let pre = spec_addr_tx_ops(tx, deltas.drop_last(), false);
        let op = OpView {
            cf: CfId::AddrTxMeta,
            key: spec_addr_tx_key(deltas[j].0, tx.block_height as u32, tx.hash@),
            val: Some(crate::schema::spec_addr_tx_bytes(tx, deltas[j].1, deltas[j].2)),
        };
        assert(ops =~= pre + seq![op]);
        assert(ops[ops.len() - 1] == op);
    } else {
        lemma_addr_tx_ops_shape(tx, deltas.drop_last(), j);
        let pre = spec_addr_tx_ops(tx, deltas.drop_last(), false);
        let wi = choose|i: int|
            0 <= i < pre.len() && (#[trigger] pre[i]).cf == CfId::AddrTxMeta && pre[i].key
                == spec_addr_tx_key(deltas.drop_last()[j].0, tx.block_height as u32, tx.hash@)
                && pre[i].val is Some;
        assert(deltas.drop_last()[j] == deltas[j]);
        assert(ops[wi] == pre[wi]);
    }
}

/// Every address-carrying per-script delta of every committed transaction
/// has its address/tx row present after the block batch is applied: the row
/// keyed by (address, height, tx hash) exists, and the store's map shape
/// makes it unique for that key.
pub proof fn law_addr_tx_row_present(
    db0: IndexDb,
    db1: IndexDb,
    info: BlockInfo,
    txs: Seq<Transaction>,
    t: int,
    j: int,
)
    requires
        forall|id: CfId, k: Seq<u8>| #[trigger] db1.at(id, k) == ops_lookup(
            spec_block_ops(info, txs),
            id,
            k,
            db0.at(id, k),
        ),
        0 <= t < txs.len(),
        0 <= j < spec_tx_deltas(txs[t]).len(),
        script_address(spec_tx_deltas(txs[t])[j].0) is Some,
    ensures
        db1.at(
            CfId::AddrTxMeta,
            spec_addr_tx_key(
                spec_tx_deltas(txs[t])[j].0,
                txs[t].block_height as u32,
                txs[t].hash@,
            ),
        ) is Some,
{
    let key = spec_addr_tx_key(spec_tx_deltas(txs[t])[j].0, txs[t].block_height as u32, txs[t].hash@);
    lemma_block_ops_addr_tx_puts_only(info, txs, key);
    lemma_block_ops_has_addr_tx_put(info, txs, t, j);
    lemma_ops_lookup_put_stays(
        spec_block_ops(info, txs),
        CfId::AddrTxMeta,
        key,
        db0.at(CfId::AddrTxMeta, key),
    );
}

/// In a block's write list, every row aimed at the address/tx family is a
/// put.
proof fn lemma_block_ops_addr_tx_puts_only(info: BlockInfo, txs: Seq<Transaction>, key: Seq<u8>)
    ensures
        forall|i: int|
            0 <= i < spec_block_ops(info, txs).len() && (#[trigger] spec_block_ops(
                info,
                txs,
            )[i]).cf == CfId::AddrTxMeta && spec_block_ops(info, txs)[i].key == key
                ==> spec_block_ops(info, txs)[i].val is Some,
{
    assert forall|i: int|
        0 <= i < spec_block_ops(info, txs).len() && (#[trigger] spec_block_ops(info, txs)[i]).cf
            == CfId::AddrTxMeta implies spec_block_ops(info, txs)[i].val is Some by {
        lemma_block_ops_addr_tx_put(info, txs, i);
    }
}

/// Any row of a block's write list aimed at the address/tx family is a put.
proof fn lemma_block_ops_addr_tx_put(info: BlockInfo, txs: Seq<Transaction>, i: int)
    requires
        0 <= i < spec_block_ops(info, txs).len(),
        spec_block_ops(info, txs)[i].cf == CfId::AddrTxMeta,
    ensures
        spec_block_ops(info, txs)[i].val is Some,
{
    let head = seq![spec_height_op(info), spec_block_meta_op(info, txs)];
    let mid = spec_addr_utxo_ops_all(txs, false) + spec_utxo_ops_all(txs, false);
    let tail = spec_per_tx_ops(txs, false);
    assert(spec_block_ops(info, txs) =~= head + (mid + tail));
    if i < 2 {
    } else if i < 2 + mid.len() {
        lemma_addr_utxo_all_cfs(txs);
        lemma_utxo_all_cfs(txs);
        lemma_addr_utxo_no_addr_tx(txs, i - 2);
    } else {
        lemma_per_tx_addr_tx_put(txs, i - 2 - mid.len());
    }
}

/// The UTXO-side segments never target the address/tx family.
proof fn lemma_addr_utxo_no_addr_tx(txs: Seq<Transaction>, i: int)
    requires
        0 <= i < (spec_addr_utxo_ops_all(txs, false) + spec_utxo_ops_all(txs, false)).len(),
    ensures
        (spec_addr_utxo_ops_all(txs, false) + spec_utxo_ops_all(txs, false))[i].cf
            != CfId::AddrTxMeta,
{
    lemma_addr_utxo_cf_values(txs);
}

/// Concrete targets of the UTXO-side segments.
proof fn lemma_addr_utxo_cf_values(txs: Seq<Transaction>)
    ensures
        forall|i: int|
            0 <= i < spec_addr_utxo_ops_all(txs, false).len() ==> (#[trigger] spec_addr_utxo_ops_all(
                txs,
                false,
            )[i]).cf == CfId::AddrUtxo,
        forall|i: int|
            0 <= i < spec_utxo_ops_all(txs, false).len() ==> (#[trigger] spec_utxo_ops_all(
                txs,
                false,
            )[i]).cf == CfId::UtxoSet,
{
    lemma_addr_utxo_puts_cf_values(txs);
    lemma_utxo_cf_values(txs);
}

proof fn lemma_addr_utxo_puts_cf_values(txs: Seq<Transaction>)
    ensures
        forall|i: int|
            0 <= i < spec_addr_utxo_ops_all(txs, false).len() ==> (#[trigger] spec_addr_utxo_ops_all(
                txs,
                false,
            )[i]).cf == CfId::AddrUtxo,
    decreases txs.len(),
{
    lemma_addr_utxo_puts_all_values(txs);
    lemma_addr_utxo_removes_all_values(txs);
}

proof fn lemma_addr_utxo_puts_all_values(txs: Seq<Transaction>)
    ensures
        forall|i: int|
            0 <= i < spec_addr_utxo_puts_all(txs, false).len() ==> (
            #[trigger] spec_addr_utxo_puts_all(txs, false)[i]).cf == CfId::AddrUtxo,
    decreases txs.len(),
{
    if txs.len() > 0 {
        lemma_addr_utxo_puts_all_values(txs.drop_last());
        lemma_addr_utxo_put_values(txs.last().hash@, txs.last().outputs@);
    }
}

proof fn lemma_addr_utxo_put_values(tx_hash: Seq<u8>, outputs: Seq<crate::chain::TxOutput>)
    ensures
        forall|i: int|
            0 <= i < crate::schema::spec_addr_utxo_put_ops(tx_hash, outputs, false).len() ==> (
            #[trigger] crate::schema::spec_addr_utxo_put_ops(tx_hash, outputs, false)[i]).cf
                == CfId::AddrUtxo,
    decreases outputs.len(),
{
    if outputs.len() > 0 {
        lemma_addr_utxo_put_values(tx_hash, outputs.drop_last());
    }
}

proof fn lemma_addr_utxo_removes_all_values(txs: Seq<Transaction>)
    ensures
        forall|i: int|
            0 <= i < spec_addr_utxo_removes_all(txs, false).len() ==> (
            #[trigger] spec_addr_utxo_removes_all(txs, false)[i]).cf == CfId::AddrUtxo,
    decreases txs.len(),
{
    if txs.len() > 0 {
        lemma_addr_utxo_removes_all_values(txs.drop_last());
        lemma_addr_utxo_remove_values(txs.last().inputs@);
    }
}

proof fn lemma_addr_utxo_remove_values(inputs: Seq<crate::chain::TxInput>)
    ensures
        forall|i: int|
            0 <= i < crate::schema::spec_addr_utxo_remove_ops(inputs, false).len() ==> (
            #[trigger] crate::schema::spec_addr_utxo_remove_ops(inputs, false)[i]).cf
                == CfId::AddrUtxo,
    decreases inputs.len(),
{
    if inputs.len() > 0 {
        lemma_addr_utxo_remove_values(inputs.drop_last());
    }
}

proof fn lemma_utxo_cf_values(txs: Seq<Transaction>)
    ensures
        forall|i: int|
            0 <= i < spec_utxo_ops_all(txs, false).len() ==> (#[trigger] spec_utxo_ops_all(
                txs,
                false,
            )[i]).cf == CfId::UtxoSet,
{
    lemma_utxo_puts_all_values(txs);
    lemma_utxo_removes_all_values(txs);
}

proof fn lemma_utxo_puts_all_values(txs: Seq<Transaction>)
    ensures
        forall|i: int|
            0 <= i < spec_utxo_puts_all(txs, false).len() ==> (#[trigger] spec_utxo_puts_all(
                txs,
                false,
            )[i]).cf == CfId::UtxoSet,
    decreases txs.len(),
{
    if txs.len() > 0 {
        lemma_utxo_puts_all_values(txs.drop_last());
        lemma_utxo_put_values(txs.last(), txs.last().outputs@);
    }
}

proof fn lemma_utxo_put_values(tx: Transaction, outputs: Seq<crate::chain::TxOutput>)
    ensures
        forall|i: int|
            0 <= i < crate::schema::spec_utxo_put_ops(tx, outputs, false).len() ==> (
            #[trigger] crate::schema::spec_utxo_put_ops(tx, outputs, false)[i]).cf == CfId::UtxoSet,
    decreases outputs.len(),
{
    if outputs.len() > 0 {
        lemma_utxo_put_values(tx, outputs.drop_last());
    }
}

proof fn lemma_utxo_removes_all_values(txs: Seq<Transaction>)
    ensures
        forall|i: int|
            0 <= i < spec_utxo_removes_all(txs, false).len() ==> (#[trigger] spec_utxo_removes_all(
                txs,
                false,
            )[i]).cf == CfId::UtxoSet,
    decreases txs.len(),
{
    if txs.len() > 0 {
        lemma_utxo_removes_all_values(txs.drop_last());
        lemma_utxo_remove_values(txs.last().inputs@);
    }
}

proof fn lemma_utxo_remove_values(inputs: Seq<crate::chain::TxInput>)
    ensures
        forall|i: int|
            0 <= i < crate::schema::spec_utxo_remove_ops(inputs, false).len() ==> (
            #[trigger] crate::schema::spec_utxo_remove_ops(inputs, false)[i]).cf == CfId::UtxoSet,
    decreases inputs.len(),
{
    if inputs.len() > 0 {
        lemma_utxo_remove_values(inputs.drop_last());
    }
}

/// In the per-transaction segment any row aimed at the address/tx family is
/// a put.
#[verifier::rlimit(60)]
proof fn lemma_per_tx_addr_tx_put(txs: Seq<Transaction>, i: int)
    requires
        0 <= i < spec_per_tx_ops(txs, false).len(),
        spec_per_tx_ops(txs, false)[i].cf == CfId::AddrTxMeta,
    ensures
        spec_per_tx_ops(txs, false)[i].val is Some,
    decreases txs.len(),
{
    assert(txs.len() > 0);
    let pre = spec_per_tx_ops(txs.drop_last(), false);
    if i < pre.len() {
        assert(spec_per_tx_ops(txs, false)[i] == pre[i]);
        lemma_per_tx_addr_tx_put(txs.drop_last(), i);
    } else {
        lemma_tx_segment_addr_tx_put(txs.last(), i - pre.len());
    }
}

/// Within one transaction's segment, rows aimed at the address/tx family
/// come only from the address/tx list, and those are puts.
proof fn lemma_tx_segment_addr_tx_put(tx: Transaction, i: int)
    requires
        0 <= i < (seq![crate::schema::spec_tx_meta_op(tx, false)] + spec_addr_tx_ops(
            tx,
            spec_tx_deltas(tx),
            false,
        ) + spec_tx_out_spend_ops(tx.hash@, tx.inputs@, false) + spec_token_meta_ops(
            tx,
            false,
        )).len(),
        (seq![crate::schema::spec_tx_meta_op(tx, false)] + spec_addr_tx_ops(
            tx,
            spec_tx_deltas(tx),
            false,
        ) + spec_tx_out_spend_ops(tx.hash@, tx.inputs@, false) + spec_token_meta_ops(
            tx,
            false,
        ))[i].cf == CfId::AddrTxMeta,
    ensures
        (seq![crate::schema::spec_tx_meta_op(tx, false)] + spec_addr_tx_ops(
            tx,
            spec_tx_deltas(tx),
            false,
        ) + spec_tx_out_spend_ops(tx.hash@, tx.inputs@, false) + spec_token_meta_ops(
            tx,
            false,
        ))[i].val is Some,
{
    let a = seq![crate::schema::spec_tx_meta_op(tx, false)];
    let b = spec_addr_tx_ops(tx, spec_tx_deltas(tx), false);
    let c = spec_tx_out_spend_ops(tx.hash@, tx.inputs@, false);
    let d = spec_token_meta_ops(tx, false);
    let whole = a + b + c + d;
    if i == 0 {
        assert(whole[0] == a[0]);
    } else if i < 1 + b.len() {
        assert(whole[i] == b[i - 1]);
        lemma_addr_tx_all_puts(tx, spec_tx_deltas(tx), i - 1);
    } else if i < 1 + b.len() + c.len() {
        assert(whole[i] == c[i - 1 - b.len()]);
        lemma_spend_ops_values(tx.hash@, tx.inputs@);
    } else {
        assert(whole[i] == d[i - 1 - b.len() - c.len()]);
    }
}

/// Spend-edge rows target the spend family only.
proof fn lemma_spend_ops_values(tx_hash: Seq<u8>, inputs: Seq<crate::chain::TxInput>)
    ensures
        forall|i: int|
            0 <= i < spec_tx_out_spend_ops(tx_hash, inputs, false).len() ==> (
            #[trigger] spec_tx_out_spend_ops(tx_hash, inputs, false)[i]).cf == CfId::TxOutSpendCf,
    decreases inputs.len(),
{
    if inputs.len() > 0 {
        lemma_spend_ops_values(tx_hash, inputs.drop_last());
    }
}

/// Every address/tx row is a put.
proof fn lemma_addr_tx_all_puts(tx: Transaction, deltas: Seq<(Seq<u8>, i64, i64)>, i: int)
    requires
        0 <= i < spec_addr_tx_ops(tx, deltas, false).len(),
    ensures
        spec_addr_tx_ops(tx, deltas, false)[i].val is Some,
    decreases deltas.len(),
{
    assert(deltas.len() > 0);
    let pre = spec_addr_tx_ops(tx, deltas.drop_last(), false);
    if i < pre.len() {
        lemma_addr_tx_all_puts(tx, deltas.drop_last(), i);
    }
}

/// The block's write list contains the put of this delta entry's row.
proof fn lemma_block_ops_has_addr_tx_put(info: BlockInfo, txs: Seq<Transaction>, t: int, j: int)
    requires
        0 <= t < txs.len(),
        0 <= j < spec_tx_deltas(txs[t]).len(),
        script_address(spec_tx_deltas(txs[t])[j].0) is Some,
    ensures
        exists|i: int|
            0 <= i < spec_block_ops(info, txs).len() && (#[trigger] spec_block_ops(info, txs)[i]).cf
                == CfId::AddrTxMeta && spec_block_ops(info, txs)[i].key == spec_addr_tx_key(
                spec_tx_deltas(txs[t])[j].0,
                txs[t].block_height as u32,
                txs[t].hash@,
            ) && spec_block_ops(info, txs)[i].val is Some,
{
    lemma_per_tx_has_addr_tx_put(txs, t, j);
    let per = spec_per_tx_ops(txs, false);
    let wi = choose|i: int|
        0 <= i < per.len() && (#[trigger] per[i]).cf == CfId::AddrTxMeta && per[i].key
            == spec_addr_tx_key(
            spec_tx_deltas(txs[t])[j].0,
            txs[t].block_height as u32,
            txs[t].hash@,
        ) && per[i].val is Some;
    let head_len = 2 + spec_addr_utxo_ops_all(txs, false).len() + spec_utxo_ops_all(
        txs,
        false,
    ).len();
    assert(spec_block_ops(info, txs)[head_len + wi] == per[wi]);
}

proof fn lemma_per_tx_has_addr_tx_put(txs: Seq<Transaction>, t: int, j: int)
    requires
        0 <= t < txs.len(),
        0 <= j < spec_tx_deltas(txs[t]).len(),
        script_address(spec_tx_deltas(txs[t])[j].0) is Some,
    ensures
        exists|i: int|
            0 <= i < spec_per_tx_ops(txs, false).len() && (#[trigger] spec_per_tx_ops(
                txs,
                false,
            )[i]).cf == CfId::AddrTxMeta && spec_per_tx_ops(txs, false)[i].key == spec_addr_tx_key(
                spec_tx_deltas(txs[t])[j].0,
                txs[t].block_height as u32,
                txs[t].hash@,
            ) && spec_per_tx_ops(txs, false)[i].val is Some,
    decreases txs.len(),
{
    let per = spec_per_tx_ops(txs, false);
    let key = spec_addr_tx_key(spec_tx_deltas(txs[t])[j].0, txs[t].block_height as u32, txs[t].hash@);
    if t == txs.len() - 1 {
        lemma_addr_tx_ops_shape(txs.last(), spec_tx_deltas(txs.last()), j);
        let b = spec_addr_tx_ops(txs.last(), spec_tx_deltas(txs.last()), false);
        let wi = choose|i: int|
            0 <= i < b.len() && (#[trigger] b[i]).cf == CfId::AddrTxMeta && b[i].key == key
                && b[i].val is Some;
        let at = spec_per_tx_ops(txs.drop_last(), false).len() + 1 + wi;
        assert(per[at] == b[wi]);
    } else {
        assert(txs.drop_last()[t] == txs[t]);
        lemma_per_tx_has_addr_tx_put(txs.drop_last(), t, j);
        let pre = spec_per_tx_ops(txs.drop_last(), false);
        let wi = choose|i: int|
            0 <= i < pre.len() && (#[trigger] pre[i]).cf == CfId::AddrTxMeta && pre[i].key == key
                && pre[i].val is Some;
        assert(per[wi] == pre[wi]);
    }
}

/// Some committed transaction spends this output key.
pub open spec fn spec_spent_key(txs: Seq<Transaction>, k: Seq<u8>) -> bool {
    exists|t: int, i: int|
        0 <= t < txs.len() && 0 <= i < txs[t].inputs@.len() && ((
        #[trigger] txs[t].inputs@[i]).outpoint matches Some(o) && k == o.hash@ + be32(o.index))
}

/// Some input of this list spends this output key.
pub open spec fn spec_spent_in(inputs: Seq<crate::chain::TxInput>, k: Seq<u8>) -> bool {
    exists|i: int|
        0 <= i < inputs.len() && ((#[trigger] inputs[i]).outpoint matches Some(o) && k == o.hash@
            + be32(o.index))
}

/// Some committed transaction creates this output key.
pub open spec fn spec_created_key(txs: Seq<Transaction>, k: Seq<u8>) -> bool {
    exists|t: int, i: int|
        0 <= t < txs.len() && 0 <= i < (#[trigger] txs[t]).outputs@.len() && k == txs[t].hash@
            + be32(#[trigger] (i as u32))
}

/// This transaction's first `outputs.len()` slots create this key.
pub open spec fn spec_created_in(tx: Transaction, count: int, k: Seq<u8>) -> bool {
    exists|i: int| 0 <= i < count && k == tx.hash@ + be32(#[trigger] (i as u32))
}

proof fn lemma_spent_in_split(inputs: Seq<crate::chain::TxInput>, k: Seq<u8>)
    requires
        inputs.len() > 0,
    ensures
        spec_spent_in(inputs, k) <==> (spec_spent_in(inputs.drop_last(), k) || (
        inputs.last().outpoint matches Some(o) && k == o.hash@ + be32(o.index))),
{
    if spec_spent_in(inputs.drop_last(), k) {
        let i = choose|i: int|
            0 <= i < inputs.drop_last().len() && ((#[trigger] inputs.drop_last()[i]).outpoint
                matches Some(o) && k == o.hash@ + be32(o.index));
        assert(inputs[i] == inputs.drop_last()[i]);
        assert(spec_spent_in(inputs, k));
    }
    if spec_spent_in(inputs, k) {
        let i = choose|i: int|
            0 <= i < inputs.len() && ((#[trigger] inputs[i]).outpoint matches Some(o) && k
                == o.hash@ + be32(o.index));
        if i < inputs.len() - 1 {
            assert(inputs.drop_last()[i] == inputs[i]);
            assert(spec_spent_in(inputs.drop_last(), k));
        }
    }
}

proof fn lemma_spent_key_split(txs: Seq<Transaction>, k: Seq<u8>)
    requires
        txs.len() > 0,
    ensures
        spec_spent_key(txs, k) <==> (spec_spent_key(txs.drop_last(), k) || spec_spent_in(
            txs.last().inputs@,
            k,
        )),
{
    if spec_spent_key(txs.drop_last(), k) {
        let (t, i) = choose|t: int, i: int|
            0 <= t < txs.drop_last().len() && 0 <= i < txs.drop_last()[t].inputs@.len() && ((
            #[trigger] txs.drop_last()[t].inputs@[i]).outpoint matches Some(o) && k == o.hash@
                + be32(o.index));
        assert(txs[t] == txs.drop_last()[t]);
        assert(txs[t].inputs@[i] == txs.drop_last()[t].inputs@[i]);
        assert(spec_spent_key(txs, k));
    }
    if spec_spent_in(txs.last().inputs@, k) {
        let i = choose|i: int|
            0 <= i < txs.last().inputs@.len() && ((#[trigger] txs.last().inputs@[i]).outpoint
                matches Some(o) && k == o.hash@ + be32(o.index));
        assert(txs[txs.len() - 1].inputs@[i] == txs.last().inputs@[i]);
        assert(spec_spent_key(txs, k));
    }
    if spec_spent_key(txs, k) {
        let (t, i) = choose|t: int, i: int|
            0 <= t < txs.len() && 0 <= i < txs[t].inputs@.len() && ((
            #[trigger] txs[t].inputs@[i]).outpoint matches Some(o) && k == o.hash@ + be32(o.index));
        if t < txs.len() - 1 {
            assert(txs.drop_last()[t] == txs[t]);
            assert(txs.drop_last()[t].inputs@[i] == txs[t].inputs@[i]);
            assert(spec_spent_key(txs.drop_last(), k));
        } else {
            assert(txs.last().inputs@[i] == txs[t].inputs@[i]);
            assert(spec_spent_in(txs.last().inputs@, k));
        }
    }
}

proof fn lemma_created_key_split(txs: Seq<Transaction>, k: Seq<u8>)
    requires
        txs.len() > 0,
    ensures
        spec_created_key(txs, k) <==> (spec_created_key(txs.drop_last(), k) || spec_created_in(
            txs.last(),
            txs.last().outputs@.len() as int,
            k,
        )),
{
    if spec_created_key(txs.drop_last(), k) {
        let (t, i) = choose|t: int, i: int|
            0 <= t < txs.drop_last().len() && 0 <= i < (#[trigger] txs.drop_last()[t]).outputs@.len()
                && k == txs.drop_last()[t].hash@ + be32(#[trigger] (i as u32));
        assert(txs[t] == txs.drop_last()[t]);
        assert(spec_created_key(txs, k));
    }
    if spec_created_in(txs.last(), txs.last().outputs@.len() as int, k) {
        let i = choose|i: int|
            0 <= i < txs.last().outputs@.len() && k == txs.last().hash@ + be32(
                #[trigger] (i as u32),
            );
        assert(txs[txs.len() - 1] == txs.last());
        assert(spec_created_key(txs, k));
    }
    if spec_created_key(txs, k) {
        let (t, i) = choose|t: int, i: int|
            0 <= t < txs.len() && 0 <= i < (#[trigger] txs[t]).outputs@.len() && k == txs[t].hash@
                + be32(#[trigger] (i as u32));
        if t < txs.len() - 1 {
            assert(txs.drop_last()[t] == txs[t]);
            assert(spec_created_key(txs.drop_last(), k));
        } else {
            assert(spec_created_in(txs.last(), txs.last().outputs@.len() as int, k));
        }
    }
}

/// The UTXO-removal ops of one input list clear exactly the spent keys.
#[verifier::rlimit(60)]
#[verifier::spinoff_prover]
proof fn lemma_utxo_remove_lookup(
    inputs: Seq<crate::chain::TxInput>,
    k: Seq<u8>,
    base: Option<Seq<u8>>,
)
    ensures
        ops_lookup(crate::schema::spec_utxo_remove_ops(inputs, false), CfId::UtxoSet, k, base)
            == if spec_spent_in(inputs, k) {
            None::<Seq<u8>>
        } else {
            base
        },
    decreases inputs.len(),
{
    let ops = crate::schema::spec_utxo_remove_ops(inputs, false);
    if inputs.len() == 0 {
        assert(!spec_spent_in(inputs, k));
    } else {
        lemma_utxo_remove_lookup(inputs.drop_last(), k, base);
        lemma_spent_in_split(inputs, k);
        let pre = crate::schema::spec_utxo_remove_ops(inputs.drop_last(), false);
        match inputs.last().outpoint {
            Some(o) => {
                let op = OpView { cf: CfId::UtxoSet, key: o.hash@ + be32(o.index), val: None };
                assert(ops =~= pre + seq![op]);
                crate::db::lemma_ops_lookup_concat(pre, seq![op], CfId::UtxoSet, k, base);
                crate::db::lemma_ops_lookup_single(
                    op,
                    CfId::UtxoSet,
                    k,
                    ops_lookup(pre, CfId::UtxoSet, k, base),
                );
                if k == op.key {
                    assert(spec_spent_in(inputs, k));
                } else {
                    assert(spec_spent_in(inputs, k) <==> spec_spent_in(inputs.drop_last(), k));
                }
            },
            None => {
                assert(ops =~= pre + Seq::<OpView>::empty());
                assert(ops =~= pre);
            },
        }
    }
}

#[verifier::spinoff_prover]
proof fn lemma_utxo_removes_all_lookup(txs: Seq<Transaction>, k: Seq<u8>, base: Option<Seq<u8>>)
    ensures
        ops_lookup(crate::schema::spec_utxo_removes_all(txs, false), CfId::UtxoSet, k, base)
            == if spec_spent_key(txs, k) {
            None::<Seq<u8>>
        } else {
            base
        },
    decreases txs.len(),
{
    if txs.len() == 0 {
        assert(!spec_spent_key(txs, k));
    } else {
        lemma_utxo_removes_all_lookup(txs.drop_last(), k, base);
        lemma_spent_key_split(txs, k);
        let pre = crate::schema::spec_utxo_removes_all(txs.drop_last(), false);
        let seg = crate::schema::spec_utxo_remove_ops(txs.last().inputs@, false);
        crate::db::lemma_ops_lookup_concat(pre, seg, CfId::UtxoSet, k, base);
        lemma_utxo_remove_lookup(
            txs.last().inputs@,
            k,
            ops_lookup(pre, CfId::UtxoSet, k, base),
        );
    }
}

/// The UTXO-creation ops of one transaction put exactly its output keys.
#[verifier::rlimit(60)]
#[verifier::spinoff_prover]
proof fn lemma_utxo_put_lookup(
    tx: Transaction,
    outputs: Seq<crate::chain::TxOutput>,
    k: Seq<u8>,
    base: Option<Seq<u8>>,
)
    requires
        outputs.len() <= tx.outputs@.len(),
    ensures
        spec_created_in(tx, outputs.len() as int, k) ==> ops_lookup(
            crate::schema::spec_utxo_put_ops(tx, outputs, false),
            CfId::UtxoSet,
            k,
            base,
        ) is Some,
        !spec_created_in(tx, outputs.len() as int, k) ==> ops_lookup(
            crate::schema::spec_utxo_put_ops(tx, outputs, false),
            CfId::UtxoSet,
            k,
            base,
        ) == base,
    decreases outputs.len(),
{
    let ops = crate::schema::spec_utxo_put_ops(tx, outputs, false);
    if outputs.len() == 0 {
        assert(!spec_created_in(tx, 0, k));
    } else {
        lemma_utxo_put_lookup(tx, outputs.drop_last(), k, base);
        let pre = crate::schema::spec_utxo_put_ops(tx, outputs.drop_last(), false);
        let op = OpView {
            cf: CfId::UtxoSet,
            key: tx.hash@ + be32((outputs.len() - 1) as u32),
            val: Some(crate::schema::spec_utxo_bytes(tx, outputs.last())),
        };
        assert(ops =~= pre + seq![op]);
        crate::db::lemma_ops_lookup_concat(pre, seq![op], CfId::UtxoSet, k, base);
        crate::db::lemma_ops_lookup_single(
            op,
            CfId::UtxoSet,
            k,
            ops_lookup(pre, CfId::UtxoSet, k, base),
        );
        if k == op.key {
            assert(spec_created_in(tx, outputs.len() as int, k)) by {
                assert(k == tx.hash@ + be32(#[trigger] ((outputs.len() - 1) as u32)));
            }
        } else {
            assert(spec_created_in(tx, outputs.len() as int, k) <==> spec_created_in(
                tx,
                outputs.len() - 1,
                k,
            )) by {
                if spec_created_in(tx, outputs.len() as int, k) {
                    let i = choose|i: int|
                        0 <= i < outputs.len() && k == tx.hash@ + be32(#[trigger] (i as u32));
                    assert(i != outputs.len() - 1);
                }
            }
        }
    }
}

#[verifier::spinoff_prover]
proof fn lemma_utxo_puts_all_lookup(txs: Seq<Transaction>, k: Seq<u8>, base: Option<Seq<u8>>)
    ensures
        spec_created_key(txs, k) ==> ops_lookup(
            crate::schema::spec_utxo_puts_all(txs, false),
            CfId::UtxoSet,
            k,
            base,
        ) is Some,
        !spec_created_key(txs, k) ==> ops_lookup(
            crate::schema::spec_utxo_puts_all(txs, false),
            CfId::UtxoSet,
            k,
            base,
        ) == base,
    decreases txs.len(),
{
    if txs.len() == 0 {
        assert(!spec_created_key(txs, k));
    } else {
        lemma_utxo_puts_all_lookup(txs.drop_last(), k, base);
        lemma_created_key_split(txs, k);
        let pre = crate::schema::spec_utxo_puts_all(txs.drop_last(), false);
        let seg = crate::schema::spec_utxo_put_ops(txs.last(), txs.last().outputs@, false);
        crate::db::lemma_ops_lookup_concat(pre, seg, CfId::UtxoSet, k, base);
        lemma_utxo_put_lookup(
            txs.last(),
            txs.last().outputs@,
            k,
            ops_lookup(pre, CfId::UtxoSet, k, base),
        );
    }
}

/// The spend-edge ops of one transaction put exactly its inputs' outpoint
/// keys.
#[verifier::rlimit(60)]
#[verifier::spinoff_prover]
proof fn lemma_spend_edge_lookup(
    tx_hash: Seq<u8>,
    inputs: Seq<crate::chain::TxInput>,
    k: Seq<u8>,
    base: Option<Seq<u8>>,
)
    ensures
        spec_spent_in(inputs, k) ==> ops_lookup(
            spec_tx_out_spend_ops(tx_hash, inputs, false),
            CfId::TxOutSpendCf,
            k,
            base,
        ) is Some,
        !spec_spent_in(inputs, k) ==> ops_lookup(
            spec_tx_out_spend_ops(tx_hash, inputs, false),
            CfId::TxOutSpendCf,
            k,
            base,
        ) == base,
    decreases inputs.len(),
{
    let ops = spec_tx_out_spend_ops(tx_hash, inputs, false);
    if inputs.len() == 0 {
        assert(!spec_spent_in(inputs, k));
    } else {
        lemma_spend_edge_lookup(tx_hash, inputs.drop_last(), k, base);
        lemma_spent_in_split(inputs, k);
        let pre = spec_tx_out_spend_ops(tx_hash, inputs.drop_last(), false);
        match inputs.last().outpoint {
            Some(o) => {
                let op = OpView {
                    cf: CfId::TxOutSpendCf,
                    key: o.hash@ + be32(o.index),
                    val: Some(crate::schema::spec_spend_bytes(tx_hash, (inputs.len() - 1) as u32)),
                };
                assert(ops =~= pre + seq![op]);
                crate::db::lemma_ops_lookup_concat(pre, seq![op], CfId::TxOutSpendCf, k, base);
                crate::db::lemma_ops_lookup_single(
                    op,
                    CfId::TxOutSpendCf,
                    k,
                    ops_lookup(pre, CfId::TxOutSpendCf, k, base),
                );
            },
            None => {
                assert(ops =~= pre + Seq::<OpView>::empty());
                assert(ops =~= pre);
            },
        }
    }
}

/// Concrete targets of the per-transaction pieces other than spend edges.
proof fn lemma_addr_tx_ops_values(tx: Transaction, deltas: Seq<(Seq<u8>, i64, i64)>)
    ensures
        forall|i: int|
            0 <= i < spec_addr_tx_ops(tx, deltas, false).len() ==> (#[trigger] spec_addr_tx_ops(
                tx,
                deltas,
                false,
            )[i]).cf == CfId::AddrTxMeta,
    decreases deltas.len(),
{
    if deltas.len() > 0 {
        lemma_addr_tx_ops_values(tx, deltas.drop_last());
    }
}

proof fn lemma_token_ops_values(tx: Transaction)
    ensures
        forall|i: int|
            0 <= i < spec_token_meta_ops(tx, false).len() ==> (#[trigger] spec_token_meta_ops(
                tx,
                false,
            )[i]).cf == CfId::TokenMetaCf,
{
}

/// The per-transaction writes stay out of the UTXO set.
proof fn lemma_per_tx_skips_utxo(txs: Seq<Transaction>, k: Seq<u8>, base: Option<Seq<u8>>)
    ensures
        ops_lookup(spec_per_tx_ops(txs, false), CfId::UtxoSet, k, base) == base,
    decreases txs.len(),
{
    if txs.len() > 0 {
        lemma_per_tx_skips_utxo(txs.drop_last(), k, base);
        let pre = spec_per_tx_ops(txs.drop_last(), false);
        let tx = txs.last();
        let a = seq![crate::schema::spec_tx_meta_op(tx, false)];
        let b = spec_addr_tx_ops(tx, spec_tx_deltas(tx), false);
        let c = spec_tx_out_spend_ops(tx.hash@, tx.inputs@, false);
        let d = spec_token_meta_ops(tx, false);
        let seg = a + b + c + d;
        assert(spec_per_tx_ops(txs, false) =~= pre + seg);
        crate::db::lemma_ops_lookup_concat(pre, seg, CfId::UtxoSet, k, base);
        lemma_addr_tx_ops_values(tx, spec_tx_deltas(tx));
        lemma_spend_ops_values(tx.hash@, tx.inputs@);
        lemma_token_ops_values(tx);
        assert forall|i: int| 0 <= i < seg.len() implies (#[trigger] seg[i]).cf != CfId::UtxoSet by {
            if i == 0 {
                assert(seg[i] == a[0]);
            } else if i < 1 + b.len() {
                assert(seg[i] == b[i - 1]);
            } else if i < 1 + b.len() + c.len() {
                assert(seg[i] == c[i - 1 - b.len()]);
            } else {
                assert(seg[i] == d[i - 1 - b.len() - c.len()]);
            }
        }
        crate::db::lemma_ops_lookup_other_cf(
            seg,
            CfId::UtxoSet,
            k,
            ops_lookup(pre, CfId::UtxoSet, k, base),
        );
    }
}

/// The per-transaction writes touch the spend family exactly at the spent
/// keys, always as puts.
#[verifier::rlimit(60)]
#[verifier::spinoff_prover]
proof fn lemma_per_tx_spend_lookup(txs: Seq<Transaction>, k: Seq<u8>, base: Option<Seq<u8>>)
    ensures
        spec_spent_key(txs, k) ==> ops_lookup(
            spec_per_tx_ops(txs, false),
            CfId::TxOutSpendCf,
            k,
            base,
        ) is Some,
        !spec_spent_key(txs, k) ==> ops_lookup(
            spec_per_tx_ops(txs, false),
            CfId::TxOutSpendCf,
            k,
            base,
        ) == base,
    decreases txs.len(),
{
    if txs.len() == 0 {
        assert(!spec_spent_key(txs, k));
    } else {
        lemma_per_tx_spend_lookup(txs.drop_last(), k, base);
        lemma_spent_key_split(txs, k);
        let pre = spec_per_tx_ops(txs.drop_last(), false);
        let tx = txs.last();
        let a = seq![crate::schema::spec_tx_meta_op(tx, false)];
        let b = spec_addr_tx_ops(tx, spec_tx_deltas(tx), false);
        let c = spec_tx_out_spend_ops(tx.hash@, tx.inputs@, false);
        let d = spec_token_meta_ops(tx, false);
        assert(spec_per_tx_ops(txs, false) =~= pre + (a + b + c + d));
        let base1 = ops_lookup(pre, CfId::TxOutSpendCf, k, base);
        crate::db::lemma_ops_lookup_concat(pre, a + b + c + d, CfId::TxOutSpendCf, k, base);
        assert(a + b + c + d =~= (a + b) + (c + d));
        crate::db::lemma_ops_lookup_concat(a + b, c + d, CfId::TxOutSpendCf, k, base1);
        lemma_addr_tx_ops_values(tx, spec_tx_deltas(tx));
        assert forall|i: int| 0 <= i < (a + b).len() implies (#[trigger] (a + b)[i]).cf
            != CfId::TxOutSpendCf by {
            if i == 0 {
                assert((a + b)[i] == a[0]);
            } else {
                assert((a + b)[i] == b[i - 1]);
            }
        }
        crate::db::lemma_ops_lookup_other_cf(a + b, CfId::TxOutSpendCf, k, base1);
        crate::db::lemma_ops_lookup_concat(c, d, CfId::TxOutSpendCf, k, base1);
        lemma_token_ops_values(tx);
        crate::db::lemma_ops_lookup_other_cf(
            d,
            CfId::TxOutSpendCf,
            k,
            ops_lookup(c, CfId::TxOutSpendCf, k, base1),
        );
        lemma_spend_edge_lookup(tx.hash@, tx.inputs@, k, base1);
    }
}

/// The confirmed layer keeps every output in exactly one of the UTXO set and
/// the spend-edge family. Committing a block preserves the exclusion, and
/// every output the block creates ends up in exactly one of the two: in the
/// spend family when an input of the same block already consumed it, in the
/// UTXO set otherwise. The hypotheses say the block's outputs are fresh (tx
/// hashes not seen before), which the chain's hashing provides.
#[verifier::rlimit(90)]
#[verifier::spinoff_prover]
pub proof fn law_confirmed_utxo_spend_exclusive(
    db0: IndexDb,
    db1: IndexDb,
    info: BlockInfo,
    txs: Seq<Transaction>,
)
    requires
        forall|id: CfId, k: Seq<u8>| #[trigger] db1.at(id, k) == ops_lookup(
            spec_block_ops(info, txs),
            id,
            k,
            db0.at(id, k),
        ),
        forall|k: Seq<u8>|
            !(#[trigger] db0.at(CfId::UtxoSet, k) is Some && db0.at(CfId::TxOutSpendCf, k)
                is Some),
        forall|k: Seq<u8>|
            spec_created_key(txs, k) ==> #[trigger] db0.at(CfId::UtxoSet, k) is None && db0.at(
                CfId::TxOutSpendCf,
                k,
            ) is None,
    ensures
        forall|k: Seq<u8>|
            !(#[trigger] db1.at(CfId::UtxoSet, k) is Some && db1.at(CfId::TxOutSpendCf, k)
                is Some),
        forall|k: Seq<u8>|
            spec_created_key(txs, k) ==> (#[trigger] db1.at(CfId::UtxoSet, k) is Some <==> db1.at(
                CfId::TxOutSpendCf,
                k,
            ) is None),
{
    assert forall|k: Seq<u8>|
        (!(#[trigger] db1.at(CfId::UtxoSet, k) is Some && db1.at(CfId::TxOutSpendCf, k) is Some))
            && (spec_created_key(txs, k) ==> (db1.at(CfId::UtxoSet, k) is Some <==> db1.at(
            CfId::TxOutSpendCf,
            k,
        ) is None)) by {
        let head = seq![spec_height_op(info), spec_block_meta_op(info, txs)];
        let addrseg = spec_addr_utxo_ops_all(txs, false);
        let utxoseg = spec_utxo_ops_all(txs, false);
        let pertx = spec_per_tx_ops(txs, false);
        assert(spec_block_ops(info, txs) =~= head + (addrseg + (utxoseg + pertx)));
        lemma_addr_utxo_cf_values(txs);
        // the UTXO set after the block
        let u0 = db0.at(CfId::UtxoSet, k);
        crate::db::lemma_ops_lookup_concat(
            head,
            addrseg + (utxoseg + pertx),
            CfId::UtxoSet,
            k,
            u0,
        );
        assert(forall|i: int| 0 <= i < head.len() ==> (#[trigger] head[i]).cf != CfId::UtxoSet);
        crate::db::lemma_ops_lookup_other_cf(head, CfId::UtxoSet, k, u0);
        crate::db::lemma_ops_lookup_concat(addrseg, utxoseg + pertx, CfId::UtxoSet, k, u0);
        crate::db::lemma_ops_lookup_other_cf(addrseg, CfId::UtxoSet, k, u0);
        crate::db::lemma_ops_lookup_concat(utxoseg, pertx, CfId::UtxoSet, k, u0);
        assert(utxoseg =~= crate::schema::spec_utxo_puts_all(txs, false)
            + crate::schema::spec_utxo_removes_all(txs, false));
        crate::db::lemma_ops_lookup_concat(
            crate::schema::spec_utxo_puts_all(txs, false),
            crate::schema::spec_utxo_removes_all(txs, false),
            CfId::UtxoSet,
            k,
            u0,
        );
        lemma_utxo_puts_all_lookup(txs, k, u0);
        lemma_utxo_removes_all_lookup(
            txs,
            k,
            ops_lookup(crate::schema::spec_utxo_puts_all(txs, false), CfId::UtxoSet, k, u0),
        );
        lemma_per_tx_skips_utxo(txs, k, ops_lookup(utxoseg, CfId::UtxoSet, k, u0));
        // the spend-edge family after the block
        let s0 = db0.at(CfId::TxOutSpendCf, k);
        crate::db::lemma_ops_lookup_concat(
            head,
            addrseg + (utxoseg + pertx),
            CfId::TxOutSpendCf,
            k,
            s0,
        );
        assert(forall|i: int|
            0 <= i < head.len() ==> (#[trigger] head[i]).cf != CfId::TxOutSpendCf);
        crate::db::lemma_ops_lookup_other_cf(head, CfId::TxOutSpendCf, k, s0);
        crate::db::lemma_ops_lookup_concat(addrseg, utxoseg + pertx, CfId::TxOutSpendCf, k, s0);
        crate::db::lemma_ops_lookup_other_cf(addrseg, CfId::TxOutSpendCf, k, s0);
        crate::db::lemma_ops_lookup_concat(utxoseg, pertx, CfId::TxOutSpendCf, k, s0);
        lemma_utxo_cf_values(txs);
        crate::db::lemma_ops_lookup_other_cf(utxoseg, CfId::TxOutSpendCf, k, s0);
        lemma_per_tx_spend_lookup(txs, k, s0);
        if spec_spent_key(txs, k) {
            assert(db1.at(CfId::UtxoSet, k) is None);
            assert(db1.at(CfId::TxOutSpendCf, k) is Some);
        } else if spec_created_key(txs, k) {
            assert(db1.at(CfId::UtxoSet, k) is Some);
            assert(db1.at(CfId::TxOutSpendCf, k) == s0);
            assert(s0 is None);
        } else {
            assert(db1.at(CfId::UtxoSet, k) == u0);
            assert(db1.at(CfId::TxOutSpendCf, k) == s0);
        }
    }
}

/// The overlay hides a removed output: a row in the mempool remove family
/// makes the overlay read absent, whatever the confirmed set or the mempool
/// add family hold.
pub proof fn law_overlay_hiding(db: IndexDb, k: Seq<u8>)
    requires
        db.at(CfId::MempoolUtxoSetRemove, k) is Some,
    ensures
        db.overlay_utxo_bytes(k) is None,
{
}

/// After a resync against an empty mempool listing, all eight mempool
/// families are empty and the confirmed layer is untouched.
pub proof fn law_empty_resync(db0: IndexDb, db1: IndexDb)
    requires
        forall|id: CfId, k: Seq<u8>| #[trigger] db1.at(id, k) == ops_lookup(
            spec_mempool_ops(Seq::empty()),
            id,
            k,
            if is_mempool_cf(id) {
                None
            } else {
                db0.at(id, k)
            },
        ),
    ensures
        forall|id: CfId, k: Seq<u8>| is_mempool_cf(id) ==> #[trigger] db1.at(id, k) is None,
        forall|id: CfId, k: Seq<u8>| !is_mempool_cf(id) ==> #[trigger] db1.at(id, k) == db0.at(
            id,
            k,
        ),
{
    assert(spec_mempool_ops(Seq::empty()) =~= Seq::<OpView>::empty());
}

} // verus!
