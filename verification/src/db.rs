//! The index database: sixteen named column families over the ordered store,
//! with atomic write batches.
//!
//! Eight families hold the confirmed layer; the other eight form the mempool
//! overlay, where removals are additive rows instead of deletions so that the
//! overlay can shadow confirmed state without touching it.

use vstd::prelude::*;

use crate::store::{ColumnFamily, lookup_in, clone_bytes};

verus! {

/// Names of the column families.
#[derive(Clone, Copy, PartialEq, Eq, Structural, Debug)]
pub enum CfId {
    BlockHeightIdx,
    BlockMetaCf,
    TxMetaCf,
    AddrTxMeta,
    AddrUtxo,
    UtxoSet,
    TxOutSpendCf,
    TokenMetaCf,
    MempoolTxMeta,
    MempoolAddrTxMeta,
    MempoolAddrUtxoAdd,
    MempoolAddrUtxoRemove,
    MempoolUtxoSetAdd,
    MempoolUtxoSetRemove,
    MempoolTxOutSpend,
    MempoolTokenMeta,
}

/// One write of an atomic batch.
pub enum WriteOp {
    Put { cf: CfId, key: Vec<u8>, value: Vec<u8> },
    Delete { cf: CfId, key: Vec<u8> },
}

/// Spec view of a write: target family, key, and the new state of the key
/// (`None` for a deletion).
#[verifier::ext_equal]
pub struct OpView {
    pub cf: CfId,
    pub key: Seq<u8>,
    pub val: Option<Seq<u8>>,
}

impl WriteOp {
    pub open spec fn view(self) -> OpView {
        match self {
            WriteOp::Put { cf, key, value } => OpView { cf, key: key@, val: Some(value@) },
            WriteOp::Delete { cf, key } => OpView { cf, key: key@, val: None },
        }
    }
}

pub open spec fn ops_view(ops: Seq<WriteOp>) -> Seq<OpView> {
    ops.map(|_i: int, op: WriteOp| op.view())
}

/// The value a key holds after the writes in `ops` ran over a base value.
pub open spec fn ops_lookup(ops: Seq<OpView>, id: CfId, k: Seq<u8>, base: Option<Seq<u8>>) -> Option<
    Seq<u8>,
>
    decreases ops.len(),
{
    if ops.len() == 0 {
        base
    } else {
        let last = ops.last();
        if last.cf == id && last.key == k {
            last.val
        } else {
            ops_lookup(ops.drop_last(), id, k, base)
        }
    }
}

/// One unfolding step of `ops_lookup` at the back.
pub proof fn lemma_ops_lookup_push(
    ops: Seq<OpView>,
    op: OpView,
    id: CfId,
    k: Seq<u8>,
    base: Option<Seq<u8>>,
)
    ensures
        ops_lookup(ops.push(op), id, k, base) == if op.cf == id && op.key == k {
            op.val
        } else {
            ops_lookup(ops, id, k, base)
        },
{
    assert(ops.push(op).drop_last() =~= ops);
    assert(ops.push(op).last() == op);
}

/// Lookup through a single write.
pub proof fn lemma_ops_lookup_single(op: OpView, id: CfId, k: Seq<u8>, base: Option<Seq<u8>>)
    ensures
        ops_lookup(seq![op], id, k, base) == if op.cf == id && op.key == k {
            op.val
        } else {
            base
        },
{
    assert(Seq::<OpView>::empty().push(op) =~= seq![op]);
    lemma_ops_lookup_push(Seq::<OpView>::empty(), op, id, k, base);
}

/// Writes to other families do not touch this one.
pub proof fn lemma_ops_lookup_other_cf(ops: Seq<OpView>, id: CfId, k: Seq<u8>, base: Option<Seq<u8>>)
    requires
        forall|i: int| 0 <= i < ops.len() ==> (#[trigger] ops[i].cf) != id,
    ensures
        ops_lookup(ops, id, k, base) == base,
    decreases ops.len(),
{
    if ops.len() > 0 {
        lemma_ops_lookup_other_cf(ops.drop_last(), id, k, base);
    }
}

/// Looking up a key none of the writes touches gives the base value.
pub proof fn lemma_ops_lookup_other_key(
    ops: Seq<OpView>,
    id: CfId,
    k: Seq<u8>,
    base: Option<Seq<u8>>,
)
    requires
        forall|i: int| 0 <= i < ops.len() ==> (#[trigger] ops[i]).cf != id || ops[i].key != k,
    ensures
        ops_lookup(ops, id, k, base) == base,
    decreases ops.len(),
{
    if ops.len() > 0 {
        lemma_ops_lookup_other_key(ops.drop_last(), id, k, base);
    }
}

/// `ops_lookup` over a concatenation runs the second part over the first
/// part's outcome.
pub proof fn lemma_ops_lookup_concat(
    a: Seq<OpView>,
    b: Seq<OpView>,
    id: CfId,
    k: Seq<u8>,
    base: Option<Seq<u8>>,
)
    ensures
        ops_lookup(a + b, id, k, base) == ops_lookup(b, id, k, ops_lookup(a, id, k, base)),
    decreases b.len(),
{
    if b.len() == 0 {
        assert(a + b =~= a);
    } else {
        assert((a + b).drop_last() =~= a + b.drop_last());
        assert((a + b).last() == b.last());
        lemma_ops_lookup_concat(a, b.drop_last(), id, k, base);
    }
}

/// Mapping to views commutes with appending one write.
pub proof fn lemma_ops_view_push(ops: Seq<WriteOp>, op: WriteOp)
    ensures
        ops_view(ops.push(op)) =~= ops_view(ops).push(op.view()),
{
}

/// The batch of writes for one block, tagged with its height for the
/// in-order commit.
pub struct BlockBatches {
    pub block_height: i32,
    pub batch: Vec<WriteOp>,
}

/// The index database.
pub struct IndexDb {
    pub block_height_idx: ColumnFamily,
    pub block_meta_cf: ColumnFamily,
    pub tx_meta_cf: ColumnFamily,
    pub addr_tx_meta: ColumnFamily,
    pub addr_utxo: ColumnFamily,
    pub utxo_set: ColumnFamily,
    pub tx_out_spend_cf: ColumnFamily,
    pub token_meta_cf: ColumnFamily,
    pub mempool_tx_meta: ColumnFamily,
    pub mempool_addr_tx_meta: ColumnFamily,
    pub mempool_addr_utxo_add: ColumnFamily,
    pub mempool_addr_utxo_remove: ColumnFamily,
    pub mempool_utxo_set_add: ColumnFamily,
    pub mempool_utxo_set_remove: ColumnFamily,
    pub mempool_tx_out_spend: ColumnFamily,
    pub mempool_token_meta: ColumnFamily,
}

impl IndexDb {
    /// The family named by `id`.
    pub open spec fn cf(self, id: CfId) -> ColumnFamily {
        match id {
            CfId::BlockHeightIdx => self.block_height_idx,
            CfId::BlockMetaCf => self.block_meta_cf,
            CfId::TxMetaCf => self.tx_meta_cf,
            CfId::AddrTxMeta => self.addr_tx_meta,
            CfId::AddrUtxo => self.addr_utxo,
            CfId::UtxoSet => self.utxo_set,
            CfId::TxOutSpendCf => self.tx_out_spend_cf,
            CfId::TokenMetaCf => self.token_meta_cf,
            CfId::MempoolTxMeta => self.mempool_tx_meta,
            CfId::MempoolAddrTxMeta => self.mempool_addr_tx_meta,
            CfId::MempoolAddrUtxoAdd => self.mempool_addr_utxo_add,
            CfId::MempoolAddrUtxoRemove => self.mempool_addr_utxo_remove,
            CfId::MempoolUtxoSetAdd => self.mempool_utxo_set_add,
            CfId::MempoolUtxoSetRemove => self.mempool_utxo_set_remove,
            CfId::MempoolTxOutSpend => self.mempool_tx_out_spend,
            CfId::MempoolTokenMeta => self.mempool_token_meta,
        }
    }

    /// Shorthand for a point read of a family's model.
    pub open spec fn at(self, id: CfId, k: Seq<u8>) -> Option<Seq<u8>> {
        self.cf(id).lookup(k)
    }

    pub open spec fn wf(self) -> bool {
        &&& self.block_height_idx.wf()
        &&& self.block_meta_cf.wf()
        &&& self.tx_meta_cf.wf()
        &&& self.addr_tx_meta.wf()
        &&& self.addr_utxo.wf()
        &&& self.utxo_set.wf()
        &&& self.tx_out_spend_cf.wf()
        &&& self.token_meta_cf.wf()
        &&& self.mempool_tx_meta.wf()
        &&& self.mempool_addr_tx_meta.wf()
        &&& self.mempool_addr_utxo_add.wf()
        &&& self.mempool_addr_utxo_remove.wf()
        &&& self.mempool_utxo_set_add.wf()
        &&& self.mempool_utxo_set_remove.wf()
        &&& self.mempool_tx_out_spend.wf()
        &&& self.mempool_token_meta.wf()
    }

    /// Open an empty index.
    pub fn open_empty() -> (db: IndexDb)
        ensures
            db.wf(),
            forall|id: CfId, k: Seq<u8>| #[trigger] db.at(id, k) is None,
            forall|id: CfId| (#[trigger] db.cf(id)).pairs() =~= Seq::<(Seq<u8>, Seq<u8>)>::empty(),
    {
        let db = IndexDb {
            block_height_idx: ColumnFamily::new(),
            block_meta_cf: ColumnFamily::new(),
            tx_meta_cf: ColumnFamily::new(),
            addr_tx_meta: ColumnFamily::new(),
            addr_utxo: ColumnFamily::new(),
            utxo_set: ColumnFamily::new(),
            tx_out_spend_cf: ColumnFamily::new(),
            token_meta_cf: ColumnFamily::new(),
            mempool_tx_meta: ColumnFamily::new(),
            mempool_addr_tx_meta: ColumnFamily::new(),
            mempool_addr_utxo_add: ColumnFamily::new(),
            mempool_addr_utxo_remove: ColumnFamily::new(),
            mempool_utxo_set_add: ColumnFamily::new(),
            mempool_utxo_set_remove: ColumnFamily::new(),
            mempool_tx_out_spend: ColumnFamily::new(),
            mempool_token_meta: ColumnFamily::new(),
        };
        proof {
            assert forall|id: CfId| (#[trigger] db.cf(id)).wf() && db.cf(id).pairs() =~= Seq::<
                (Seq<u8>, Seq<u8>),
            >::empty() by {
                match id {
                    CfId::BlockHeightIdx => {
                    },
                    _ => {
                    },
                }
            }
        }
        db
    }

    /// Apply one write.
    fn apply_op(&mut self, op: &WriteOp)
        requires
            old(self).wf(),
        ensures
            final(self).wf(),
            forall|id: CfId, k: Seq<u8>| #[trigger] final(self).at(id, k) == if id == op.view().cf
                && k == op.view().key {
                op.view().val
            } else {
                old(self).at(id, k)
            },
    {
        match op {
            WriteOp::Put { cf, key, value } => {
                let k = clone_bytes(key);
                let v = clone_bytes(value);
                match cf {
                    CfId::BlockHeightIdx => self.block_height_idx.put(k, v),
                    CfId::BlockMetaCf => self.block_meta_cf.put(k, v),
                    CfId::TxMetaCf => self.tx_meta_cf.put(k, v),
                    CfId::AddrTxMeta => self.addr_tx_meta.put(k, v),
                    CfId::AddrUtxo => self.addr_utxo.put(k, v),
                    CfId::UtxoSet => self.utxo_set.put(k, v),
                    CfId::TxOutSpendCf => self.tx_out_spend_cf.put(k, v),
                    CfId::TokenMetaCf => self.token_meta_cf.put(k, v),
                    CfId::MempoolTxMeta => self.mempool_tx_meta.put(k, v),
                    CfId::MempoolAddrTxMeta => self.mempool_addr_tx_meta.put(k, v),
                    CfId::MempoolAddrUtxoAdd => self.mempool_addr_utxo_add.put(k, v),
                    CfId::MempoolAddrUtxoRemove => self.mempool_addr_utxo_remove.put(k, v),
                    CfId::MempoolUtxoSetAdd => self.mempool_utxo_set_add.put(k, v),
                    CfId::MempoolUtxoSetRemove => self.mempool_utxo_set_remove.put(k, v),
                    CfId::MempoolTxOutSpend => self.mempool_tx_out_spend.put(k, v),
                    CfId::MempoolTokenMeta => self.mempool_token_meta.put(k, v),
                }
            },
            WriteOp::Delete { cf, key } => {
                match cf {
                    CfId::BlockHeightIdx => self.block_height_idx.delete(key.as_slice()),
                    CfId::BlockMetaCf => self.block_meta_cf.delete(key.as_slice()),
                    CfId::TxMetaCf => self.tx_meta_cf.delete(key.as_slice()),
                    CfId::AddrTxMeta => self.addr_tx_meta.delete(key.as_slice()),
                    CfId::AddrUtxo => self.addr_utxo.delete(key.as_slice()),
                    CfId::UtxoSet => self.utxo_set.delete(key.as_slice()),
                    CfId::TxOutSpendCf => self.tx_out_spend_cf.delete(key.as_slice()),
                    CfId::TokenMetaCf => self.token_meta_cf.delete(key.as_slice()),
                    CfId::MempoolTxMeta => self.mempool_tx_meta.delete(key.as_slice()),
                    CfId::MempoolAddrTxMeta => self.mempool_addr_tx_meta.delete(key.as_slice()),
                    CfId::MempoolAddrUtxoAdd => self.mempool_addr_utxo_add.delete(key.as_slice()),
                    CfId::MempoolAddrUtxoRemove => self.mempool_addr_utxo_remove.delete(
                        key.as_slice(),
                    ),
                    CfId::MempoolUtxoSetAdd => self.mempool_utxo_set_add.delete(key.as_slice()),
                    CfId::MempoolUtxoSetRemove => self.mempool_utxo_set_remove.delete(
                        key.as_slice(),
                    ),
                    CfId::MempoolTxOutSpend => self.mempool_tx_out_spend.delete(key.as_slice()),
                    CfId::MempoolTokenMeta => self.mempool_token_meta.delete(key.as_slice()),
                }
            },
        }
    }

    /// Apply a whole batch. In-memory application is atomic by construction:
    /// no reader runs between the writes.
    pub fn apply_batch(&mut self, batch: &Vec<WriteOp>)
        requires
            old(self).wf(),
        ensures
            final(self).wf(),
            forall|id: CfId, k: Seq<u8>| #[trigger] final(self).at(id, k) == ops_lookup(
                ops_view(batch@),
                id,
                k,
                old(self).at(id, k),
            ),
    {
        let n: usize = batch.len();
        let mut i: usize = 0;
        while i < n
            invariant
                0 <= i <= n,
                n == batch@.len(),
                self.wf(),
                forall|id: CfId, k: Seq<u8>| #[trigger] self.at(id, k) == ops_lookup(
                    ops_view(batch@.subrange(0, i as int)),
                    id,
                    k,
                    old(self).at(id, k),
                ),
            decreases n - i,
        {
            let ghost pre = self;
            self.apply_op(&batch[i]);
            proof {
                assert(ops_view(batch@.subrange(0, i + 1)) =~= ops_view(
                    batch@.subrange(0, i as int),
                ).push(batch@[i as int].view()));
                assert forall|id: CfId, k: Seq<u8>| #[trigger] self.at(id, k) == ops_lookup(
                    ops_view(batch@.subrange(0, i + 1)),
                    id,
                    k,
                    old(self).at(id, k),
                ) by {
                    lemma_ops_lookup_push(
                        ops_view(batch@.subrange(0, i as int)),
                        batch@[i as int].view(),
                        id,
                        k,
                        old(self).at(id, k),
                    );
                }
            }
            i = i + 1;
        }
        proof {
            assert(batch@.subrange(0, n as int) =~= batch@);
        }
    }

    /// Apply a block's batch.
    pub fn apply_block_batches(&mut self, block_batches: &BlockBatches)
        requires
            old(self).wf(),
        ensures
            final(self).wf(),
            forall|id: CfId, k: Seq<u8>| #[trigger] final(self).at(id, k) == ops_lookup(
                ops_view(block_batches.batch@),
                id,
                k,
                old(self).at(id, k),
            ),
    {
        self.apply_batch(&block_batches.batch);
    }

    /// Truncate all eight mempool families; the confirmed layer is untouched.
    pub fn clear_mempool(&mut self)
        requires
            old(self).wf(),
        ensures
            final(self).wf(),
            forall|id: CfId, k: Seq<u8>| is_mempool_cf(id) ==> #[trigger] final(self).at(
                id,
                k,
            ) is None,
            forall|id: CfId| is_mempool_cf(id) ==> (#[trigger] final(self).cf(id)).pairs() =~= Seq::<
                (Seq<u8>, Seq<u8>),
            >::empty(),
            forall|id: CfId, k: Seq<u8>| !is_mempool_cf(id) ==> #[trigger] final(self).at(id, k)
                == old(self).at(id, k),
            forall|id: CfId| !is_mempool_cf(id) ==> (#[trigger] final(self).cf(id)) == old(
                self,
            ).cf(id),
    {
        self.mempool_tx_meta.clear();
        self.mempool_addr_tx_meta.clear();
        self.mempool_addr_utxo_add.clear();
        self.mempool_addr_utxo_remove.clear();
        self.mempool_utxo_set_add.clear();
        self.mempool_utxo_set_remove.clear();
        self.mempool_tx_out_spend.clear();
        self.mempool_token_meta.clear();
    }

    /// Sync point. The in-memory store has nothing to write back; the call
    /// keeps the write path's cadence for callers that persist elsewhere.
    pub fn flush(&self)
    {
    }
}

/// Whether a family belongs to the mempool overlay.
pub open spec fn is_mempool_cf(id: CfId) -> bool {
    match id {
        CfId::MempoolTxMeta | CfId::MempoolAddrTxMeta | CfId::MempoolAddrUtxoAdd
            | CfId::MempoolAddrUtxoRemove | CfId::MempoolUtxoSetAdd | CfId::MempoolUtxoSetRemove
            | CfId::MempoolTxOutSpend | CfId::MempoolTokenMeta => true,
        _ => false,
    }
}

} // verus!
