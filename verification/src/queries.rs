//! The typed query surface over the index, reading through the mempool
//! overlay.
//!
//! Overlay rules: record reads try the mempool family first, then the
//! confirmed one; a UTXO read is absent whenever the mempool remove family
//! shadows it, regardless of the confirmed row.

use vstd::prelude::*;

use crate::db::{IndexDb, CfId};
use crate::keys::{be32, be32_decode, UtxoKey, AddrKeyPrefix, AddrTxKey, TxOutSpend, read_hash32};
use crate::records::{BlockMeta, TxMeta, TokenMeta, AddressTx, Utxo};
use crate::store::{filter_prefix, KvEntry};

verus! {

/// Errors surfaced by the query layer.
#[derive(Clone, Copy, PartialEq, Eq, Structural, Debug)]
pub enum DbError {
    /// A stored key or value does not decode: data corruption.
    Decode,
    /// A row another row refers to is absent.
    MissingRow,
}

impl IndexDb {
    /// Overlay read of a tx record's bytes: mempool first, else confirmed.
    pub open spec fn overlay_tx_meta_bytes(self, h: Seq<u8>) -> Option<Seq<u8>> {
        match self.at(CfId::MempoolTxMeta, h) {
            Some(v) => Some(v),
            None => self.at(CfId::TxMetaCf, h),
        }
    }

    /// Overlay read of a token record's bytes.
    pub open spec fn overlay_token_meta_bytes(self, id: Seq<u8>) -> Option<Seq<u8>> {
        match self.at(CfId::MempoolTokenMeta, id) {
            Some(v) => Some(v),
            None => self.at(CfId::TokenMetaCf, id),
        }
    }

    /// Overlay read of a UTXO's bytes: a row in the mempool remove family
    /// hides the output entirely, else the mempool add family wins, else the
    /// confirmed set answers.
    pub open spec fn overlay_utxo_bytes(self, k: Seq<u8>) -> Option<Seq<u8>> {
        if self.at(CfId::MempoolUtxoSetRemove, k) is Some {
            None
        } else {
            match self.at(CfId::MempoolUtxoSetAdd, k) {
                Some(v) => Some(v),
                None => self.at(CfId::UtxoSet, k),
            }
        }
    }

    /// The height of the best committed block, 0 on an empty chain.
    pub fn last_block_height(&self) -> (r: Result<u32, DbError>)
        requires
            self.wf(),
        ensures
            self.block_height_idx.pairs().len() == 0 ==> r == Ok::<u32, DbError>(0),
            self.block_height_idx.pairs().len() > 0 && self.block_height_idx.pairs().last().0.len()
                == 4 ==> r == Ok::<u32, DbError>(
                be32_decode(self.block_height_idx.pairs().last().0),
            ),
            self.block_height_idx.pairs().len() > 0 && self.block_height_idx.pairs().last().0.len()
                != 4 ==> r == Err::<u32, DbError>(DbError::Decode),
    {
        match self.block_height_idx.last_entry() {
            None => Ok(0),
            Some((key, _value)) => {
                if key.len() != 4 {
                    return Err(DbError::Decode);
                }
                Ok(crate::keys::read_be32(key.as_slice(), 0))
            },
        }
    }

    /// The hash committed at a height, if any.
    pub fn block_hash_at(&self, height: u32) -> (r: Result<Option<[u8; 32]>, DbError>)
        requires
            self.wf(),
        ensures
            self.at(CfId::BlockHeightIdx, be32(height)) is None ==> r == Ok::<
                Option<[u8; 32]>,
                DbError,
            >(None),
            self.at(CfId::BlockHeightIdx, be32(height)) matches Some(v) ==> ((v.len() == 32 ==> (
            r matches Ok(Some(h)) && h@ == v)) && (v.len() != 32 ==> r == Err::<
                Option<[u8; 32]>,
                DbError,
            >(DbError::Decode))),
    {
        let key = crate::keys::encode_height_key(height);
        match self.block_height_idx.get(key.as_slice()) {
            None => Ok(None),
            Some(v) => {
                if v.len() != 32 {
                    return Err(DbError::Decode);
                }
                Ok(Some(read_hash32(v.as_slice(), 0)))
            },
        }
    }

    /// The block record stored under a block hash.
    pub fn block_meta(&self, block_hash: &[u8]) -> (r: Result<Option<BlockMeta>, DbError>)
        requires
            self.wf(),
        ensures
            self.at(CfId::BlockMetaCf, block_hash@) is None ==> r == Ok::<
                Option<BlockMeta>,
                DbError,
            >(None),
            self.at(CfId::BlockMetaCf, block_hash@) matches Some(v) ==> match r {
                Ok(Some(m)) => m.wf() && m.enc() == v,
                Err(DbError::Decode) => !(exists|m2: BlockMeta| m2.wf() && v == m2.enc()),
                _ => false,
            },
    {
        match self.block_meta_cf.get(block_hash) {
            None => Ok(None),
            Some(v) => match BlockMeta::decode(v.as_slice()) {
                Some(m) => Ok(Some(m)),
                None => Err(DbError::Decode),
            },
        }
    }

    /// The tx record for a tx hash, through the overlay.
    pub fn tx_meta(&self, tx_hash: &[u8]) -> (r: Result<Option<TxMeta>, DbError>)
        requires
            self.wf(),
        ensures
            self.overlay_tx_meta_bytes(tx_hash@) is None ==> r == Ok::<Option<TxMeta>, DbError>(
                None,
            ),
            self.overlay_tx_meta_bytes(tx_hash@) matches Some(v) ==> match r {
                Ok(Some(m)) => m.wf() && m.enc() == v,
                Err(DbError::Decode) => !(exists|m2: TxMeta| m2.wf() && v == m2.enc()),
                _ => false,
            },
    {
        let stored: Option<&Vec<u8>> = match self.mempool_tx_meta.get(tx_hash) {
            Some(v) => Some(v),
            None => self.tx_meta_cf.get(tx_hash),
        };
        match stored {
            None => Ok(None),
            Some(v) => match TxMeta::decode(v.as_slice()) {
                Some(m) => Ok(Some(m)),
                None => Err(DbError::Decode),
            },
        }
    }

    /// The token record for a token id, through the overlay.
    pub fn token_meta(&self, token_id: &[u8]) -> (r: Result<Option<TokenMeta>, DbError>)
        requires
            self.wf(),
        ensures
            self.overlay_token_meta_bytes(token_id@) is None ==> r == Ok::<
                Option<TokenMeta>,
                DbError,
            >(None),
            self.overlay_token_meta_bytes(token_id@) matches Some(v) ==> match r {
                Ok(Some(m)) => m.wf() && m.enc() == v,
                Err(DbError::Decode) => !(exists|m2: TokenMeta| m2.wf() && v == m2.enc()),
                _ => false,
            },
    {
        let stored: Option<&Vec<u8>> = match self.mempool_token_meta.get(token_id) {
            Some(v) => Some(v),
            None => self.token_meta_cf.get(token_id),
        };
        match stored {
            None => Ok(None),
            Some(v) => match TokenMeta::decode(v.as_slice()) {
                Some(m) => Ok(Some(m)),
                None => Err(DbError::Decode),
            },
        }
    }

    /// The unspent output under a key, through the overlay: absent whenever
    /// the mempool remove family shadows the key.
    pub fn utxo(&self, utxo_key: &UtxoKey) -> (r: Result<Option<Utxo>, DbError>)
        requires
            self.wf(),
        ensures
            self.overlay_utxo_bytes(utxo_key.enc()) is None ==> r == Ok::<Option<Utxo>, DbError>(
                None,
            ),
            self.overlay_utxo_bytes(utxo_key.enc()) matches Some(v) ==> match r {
                Ok(Some(u)) => u.enc() == v,
                Err(DbError::Decode) => !(exists|u2: Utxo| v == u2.enc()),
                _ => false,
            },
    {
        let key = utxo_key.encode();
        if self.mempool_utxo_set_remove.get(key.as_slice()).is_some() {
            return Ok(None);
        }
        let stored: Option<&Vec<u8>> = match self.mempool_utxo_set_add.get(key.as_slice()) {
            Some(v) => Some(v),
            None => self.utxo_set.get(key.as_slice()),
        };
        match stored {
            None => Ok(None),
            Some(v) => match Utxo::decode(v.as_slice()) {
                Some(u) => Ok(Some(u)),
                None => Err(DbError::Decode),
            },
        }
    }

    /// How many rows the consecutive range starting at `start` can serve:
    /// at most `num`, stopping at the first missing height.
    pub open spec fn spec_range_len(self, start: int, num: int) -> int
        decreases num,
    {
        if num <= 0 || start > u32::MAX || self.at(CfId::BlockHeightIdx, be32(start as u32))
            is None {
            0
        } else {
            1 + self.spec_range_len(start + 1, num - 1)
        }
    }

    /// The range rows are well stored: every height row in the consecutive
    /// run holds a 32-byte hash whose block record is present and decodes.
    pub open spec fn spec_range_ok(self, start: int, num: int) -> bool
        decreases num,
    {
        if num <= 0 || start > u32::MAX {
            true
        } else {
            match self.at(CfId::BlockHeightIdx, be32(start as u32)) {
                None => true,
                Some(hv) => hv.len() == 32 && (match self.at(CfId::BlockMetaCf, hv) {
                    Some(v) => exists|m: BlockMeta| m.wf() && v == m.enc(),
                    None => false,
                }) && self.spec_range_ok(start + 1, num - 1),
            }
        }
    }

    /// One returned row of `block_range` is sound: the hash is the one the
    /// height index holds, and the record decodes from the stored bytes.
    pub open spec fn spec_range_row_ok(self, start_height: u32, i: int, row: ([u8; 32], BlockMeta)) -> bool {
        &&& self.at(CfId::BlockHeightIdx, be32((start_height + i) as u32)) == Some(row.0@)
        &&& (self.at(CfId::BlockMetaCf, row.0@) matches Some(v) && row.1.enc() == v)
    }

    /// Block metadata for at most `num_blocks` consecutive heights starting
    /// at `start_height`, stopping at the first gap.
    pub fn block_range(&self, start_height: u32, num_blocks: u32) -> (r: Result<
        Vec<([u8; 32], BlockMeta)>,
        DbError,
    >)
        requires
            self.wf(),
        ensures
            r matches Ok(rows) ==> rows@.len() == self.spec_range_len(
                start_height as int,
                num_blocks as int,
            ) && (forall|i: int|
                0 <= i < rows@.len() ==> self.spec_range_row_ok(
                    start_height,
                    i,
                    #[trigger] rows@[i],
                )),
            self.spec_range_ok(start_height as int, num_blocks as int) ==> r is Ok,
    {
        let mut rows: Vec<([u8; 32], BlockMeta)> = Vec::new();
        let mut i: u32 = 0;
        while i < num_blocks
            invariant
                0 <= i <= num_blocks,
                self.wf(),
                rows@.len() == i,
                self.spec_range_len(start_height as int, num_blocks as int) == if i < num_blocks {
                    i + self.spec_range_len(start_height + i, num_blocks - i)
                } else {
                    i as int
                },
                forall|j: int|
                    0 <= j < rows@.len() ==> self.spec_range_row_ok(
                        start_height,
                        j,
                        #[trigger] rows@[j],
                    ),
                self.spec_range_ok(start_height as int, num_blocks as int) ==> self.spec_range_ok(
                    start_height + i,
                    num_blocks - i,
                ),
            decreases num_blocks - i,
    {
            if start_height as u64 + i as u64 > u32::MAX as u64 {
                proof {
                    assert(self.spec_range_len(start_height + i, num_blocks - i) == 0);
                }
                return Ok(rows);
            }
            let h: u32 = start_height + i;
            let hash = match self.block_hash_at(h) {
                Ok(Some(hash)) => hash,
                Ok(None) => {
                    proof {
                        assert(self.spec_range_len(start_height + i, num_blocks - i) == 0);
                    }
                    return Ok(rows);
                },
                Err(e) => {
                    proof {
                        assert(!self.spec_range_ok(start_height + i, num_blocks - i));
                    }
                    return Err(e);
                },
            };
            let meta = match self.block_meta(hash.as_slice()) {
                Ok(Some(meta)) => meta,
                Ok(None) => {
                    proof {
                        assert(!self.spec_range_ok(start_height + i, num_blocks - i));
                    }
                    return Err(DbError::MissingRow);
                },
                Err(e) => {
                    proof {
                        assert(!self.spec_range_ok(start_height + i, num_blocks - i));
                    }
                    return Err(e);
                },
            };
            rows.push((hash, meta));
            proof {
                assert(self.spec_range_len(start_height + i, num_blocks - i) == 1
                    + self.spec_range_len(start_height + i + 1, num_blocks - i - 1));
                if self.spec_range_ok(start_height as int, num_blocks as int) {
                    assert(self.spec_range_ok(start_height + i, num_blocks - i));
                    assert(self.spec_range_ok(start_height + i + 1, num_blocks - i - 1));
                }
            }
            i = i + 1;
        }
        Ok(rows)
    }

    /// Number of transactions touching an address: mempool rows plus
    /// confirmed rows under the address prefix (saturating at the type's
    /// top).
    pub fn address_num_txs(&self, address: &AddrKeyPrefix) -> (r: usize)
        requires
            self.wf(),
        ensures
            r == if filter_prefix(self.mempool_addr_tx_meta.pairs(), address.enc()).len()
                + filter_prefix(self.addr_tx_meta.pairs(), address.enc()).len() <= usize::MAX {
                filter_prefix(self.mempool_addr_tx_meta.pairs(), address.enc()).len()
                    + filter_prefix(self.addr_tx_meta.pairs(), address.enc()).len()
            } else {
                usize::MAX as nat
            },
    {
        let prefix = address.encode();
        let mem = self.mempool_addr_tx_meta.scan_prefix(prefix.as_slice());
        let conf = self.addr_tx_meta.scan_prefix(prefix.as_slice());
        proof {
            assert(mem@.map(|_i: int, e: KvEntry| e.pair()).len() == mem@.len());
            assert(conf@.map(|_i: int, e: KvEntry| e.pair()).len() == conf@.len());
        }
        if mem.len() > usize::MAX - conf.len() {
            usize::MAX
        } else {
            mem.len() + conf.len()
        }
    }

    /// The combined address history stream: mempool rows in ascending key
    /// order, then confirmed rows newest block first.
    pub open spec fn spec_addr_stream(self, p: Seq<u8>) -> Seq<(Seq<u8>, Seq<u8>)> {
        filter_prefix(self.mempool_addr_tx_meta.pairs(), p) + filter_prefix(
            self.addr_tx_meta.pairs(),
            p,
        ).reverse()
    }

    /// The page `skip`/`take` cuts out of the combined stream.
    pub open spec fn spec_addr_page(self, p: Seq<u8>, skip: int, take: int) -> Seq<
        (Seq<u8>, Seq<u8>),
    > {
        let combined = self.spec_addr_stream(p);
        let lo = if skip <= combined.len() {
            skip
        } else {
            combined.len() as int
        };
        let hi = if skip + take <= combined.len() {
            skip + take
        } else {
            combined.len() as int
        };
        combined.subrange(lo, hi)
    }

    /// One returned history row is sound for its stream entry: the hash is
    /// the key's tx-hash field, the delta record decodes from the stored
    /// value, and the tx record comes from the overlay.
    pub open spec fn spec_addr_row_ok(
        self,
        entry: (Seq<u8>, Seq<u8>),
        row: ([u8; 32], AddressTx, TxMeta),
    ) -> bool {
        &&& entry.0.len() == 57
        &&& row.0@ == entry.0.subrange(25, 57)
        &&& row.1.enc() == entry.1
        &&& row.2.wf()
        &&& self.overlay_tx_meta_bytes(entry.0.subrange(25, 57)) == Some(row.2.enc())
    }

    /// The requested page is well stored: every entry in it has an
    /// address/tx-shaped key, a decodable delta record, and a decodable
    /// overlay tx record under its tx hash.
    pub open spec fn spec_addr_page_ok(self, p: Seq<u8>, skip: int, take: int) -> bool {
        let page = self.spec_addr_page(p, skip, take);
        forall|i: int| 0 <= i < page.len() ==> {
            &&& (#[trigger] page[i]).0.len() == 57
            &&& page[i].1.len() == 28
            &&& (match self.overlay_tx_meta_bytes(page[i].0.subrange(25, 57)) {
                Some(v) => exists|m: TxMeta| m.wf() && v == m.enc(),
                None => false,
            })
        }
    }

    /// An address's transactions, paginated: mempool first, then confirmed
    /// history newest first; `skip` is spent across both streams in that
    /// order and `take` caps the rows returned.
    pub fn address(&self, address: &AddrKeyPrefix, skip: usize, take: usize) -> (r: Result<
        Vec<([u8; 32], AddressTx, TxMeta)>,
        DbError,
    >)
        requires
            self.wf(),
        ensures
            r matches Ok(rows) ==> rows@.len() == self.spec_addr_page(
                address.enc(),
                skip as int,
                take as int,
            ).len() && (forall|i: int|
                0 <= i < rows@.len() ==> self.spec_addr_row_ok(
                    self.spec_addr_page(address.enc(), skip as int, take as int)[i],
                    #[trigger] rows@[i],
                )),
            self.spec_addr_page_ok(address.enc(), skip as int, take as int) ==> r is Ok,
    {
        let prefix = address.encode();
        let mem = self.mempool_addr_tx_meta.scan_prefix(prefix.as_slice());
        let mut conf = self.addr_tx_meta.scan_prefix(prefix.as_slice());
        let ghost conf_pairs = conf@.map(|_i: int, e: KvEntry| e.pair());
        let mut combined: Vec<KvEntry> = mem;
        let ghost mem_pairs = combined@.map(|_i: int, e: KvEntry| e.pair());
        let ghost mem_len = combined@.len();
        while conf.len() > 0
            invariant
                conf@.len() <= conf_pairs.len(),
                mem_len == mem_pairs.len(),
                combined@.len() == mem_len + conf_pairs.len() - conf@.len(),
                forall|k: int| 0 <= k < conf@.len() ==> (#[trigger] conf@[k]).pair()
                    == conf_pairs[k],
                forall|k: int| 0 <= k < mem_len ==> (#[trigger] combined@[k]).pair()
                    == mem_pairs[k],
                forall|k: int| mem_len <= k < combined@.len() ==> (#[trigger] combined@[k]).pair()
                    == conf_pairs[conf_pairs.len() - 1 - (k - mem_len)],
            decreases conf@.len(),
        {
            let ghost pre = conf@;
            let e = conf.pop().unwrap();
            combined.push(e);
        }
        proof {
            assert(combined@.map(|_i: int, e: KvEntry| e.pair()) =~~= self.spec_addr_stream(
                address.enc(),
            )) by {
                assert(mem_pairs =~~= filter_prefix(
                    self.mempool_addr_tx_meta.pairs(),
                    address.enc(),
                ));
                assert(conf_pairs =~~= filter_prefix(self.addr_tx_meta.pairs(), address.enc()));
            }
        }
        let total: usize = combined.len();
        let lo: usize = if skip <= total {
            skip
        } else {
            total
        };
        let hi: usize = if take <= total - lo {
            lo + take
        } else {
            total
        };
        let ghost page = self.spec_addr_page(address.enc(), skip as int, take as int);
        proof {
            assert(page =~~= combined@.map(|_i: int, e: KvEntry| e.pair()).subrange(
                lo as int,
                hi as int,
            ));
        }
        let mut rows: Vec<([u8; 32], AddressTx, TxMeta)> = Vec::new();
        let mut i: usize = lo;
        while i < hi
            invariant
                lo <= i <= hi <= total,
                self.wf(),
                total == combined@.len(),
                page == self.spec_addr_page(address.enc(), skip as int, take as int),
                page =~~= combined@.map(|_i: int, e: KvEntry| e.pair()).subrange(
                    lo as int,
                    hi as int,
                ),
                rows@.len() == i - lo,
                forall|j: int|
                    0 <= j < rows@.len() ==> self.spec_addr_row_ok(page[j], #[trigger] rows@[j]),
            decreases hi - i,
        {
            let entry = &combined[i];
            proof {
                assert(page[i - lo] == combined@.map(|_i: int, e: KvEntry| e.pair())[i as int]);
                assert(page[i - lo].0 == entry.key@ && page[i - lo].1 == entry.value@);
            }
            let addr_tx_key = match AddrTxKey::decode(entry.key.as_slice()) {
                Some(k) => k,
                None => {
                    proof {
                        assert(!self.spec_addr_page_ok(address.enc(), skip as int, take as int));
                    }
                    return Err(DbError::Decode);
                },
            };
            let addr_tx = match AddressTx::decode(entry.value.as_slice()) {
                Some(v) => v,
                None => {
                    proof {
                        assert(!self.spec_addr_page_ok(address.enc(), skip as int, take as int));
                    }
                    return Err(DbError::Decode);
                },
            };
            proof {
                assert(addr_tx_key.tx_hash@ == page[i - lo].0.subrange(25, 57));
            }
            let meta = match self.tx_meta(addr_tx_key.tx_hash.as_slice()) {
                Ok(Some(m)) => m,
                Ok(None) => {
                    proof {
                        let w = i - lo;
                        assert(self.overlay_tx_meta_bytes(page[w].0.subrange(25, 57)) is None);
                        assert(!self.spec_addr_page_ok(address.enc(), skip as int, take as int));
                    }
                    return Err(DbError::MissingRow);
                },
                Err(e) => {
                    proof {
                        let w = i - lo;
                        assert(match self.overlay_tx_meta_bytes(page[w].0.subrange(25, 57)) {
                            Some(v) => !(exists|m: TxMeta| m.wf() && v == m.enc()),
                            None => true,
                        });
                        assert(!self.spec_addr_page_ok(address.enc(), skip as int, take as int));
                    }
                    return Err(e);
                },
            };
            proof {
                assert(page[i - lo] == combined@.map(|_i: int, e: KvEntry| e.pair())[i as int]);
                assert(addr_tx_key.tx_hash@ == page[i - lo].0.subrange(25, 57));
            }
            rows.push((addr_tx_key.tx_hash, addr_tx, meta));
            i = i + 1;
        }
        Ok(rows)
    }
}


/// Update-or-append into an association list keyed by output index, keeping
/// first-seen order.
pub open spec fn spend_upsert(
    acc: Seq<(u32, Option<Seq<u8>>)>,
    idx: u32,
    v: Option<Seq<u8>>,
) -> Seq<(u32, Option<Seq<u8>>)>
    decreases acc.len(),
{
    if acc.len() == 0 {
        seq![(idx, v)]
    } else if acc[0].0 == idx {
        seq![(idx, v)] + acc.skip(1)
    } else {
        seq![acc[0]] + spend_upsert(acc.skip(1), idx, v)
    }
}

proof fn lemma_spend_upsert_skip(acc: Seq<(u32, Option<Seq<u8>>)>, j: int, idx: u32, v: Option<
    Seq<u8>,
>)
    requires
        0 <= j <= acc.len(),
        forall|k: int| 0 <= k < j ==> (#[trigger] acc[k]).0 != idx,
    ensures
        spend_upsert(acc, idx, v) =~= acc.subrange(0, j) + spend_upsert(acc.skip(j), idx, v),
    decreases j,
{
    if j == 0 {
        assert(acc.skip(0) =~= acc);
        assert(acc.subrange(0, 0) =~= Seq::<(u32, Option<Seq<u8>>)>::empty());
    } else {
        lemma_spend_upsert_skip(acc.skip(1), j - 1, idx, v);
        assert(acc.skip(1).skip(j - 1) =~= acc.skip(j));
        assert(seq![acc[0]] + (acc.skip(1).subrange(0, j - 1) + spend_upsert(
            acc.skip(j),
            idx,
            v,
        )) =~= acc.subrange(0, j) + spend_upsert(acc.skip(j), idx, v));
    }
}

/// Fold the entries of one prefix scan into the spend map: UTXO rows mark
/// an index unspent, spend-edge rows record the spender.
pub open spec fn fold_spends(
    acc: Seq<(u32, Option<Seq<u8>>)>,
    entries: Seq<(Seq<u8>, Seq<u8>)>,
    spent: bool,
) -> Seq<(u32, Option<Seq<u8>>)>
    decreases entries.len(),
{
    if entries.len() == 0 {
        acc
    } else {
        spend_upsert(
            fold_spends(acc, entries.drop_last(), spent),
            be32_decode(entries.last().0.subrange(32, 36)),
            if spent {
                Some(entries.last().1)
            } else {
                None
            },
        )
    }
}

/// Every key of a scan is a well-formed output key, and (for spend rows)
/// every value a spend record.
pub open spec fn spends_scan_ok(entries: Seq<(Seq<u8>, Seq<u8>)>, spent: bool) -> bool {
    forall|i: int| 0 <= i < entries.len() ==> (#[trigger] entries[i]).0.len() == 36 && (spent
        ==> entries[i].1.len() == 36)
}

impl IndexDb {
    /// The four prefix scans feeding the spend map of one transaction, in
    /// fold order.
    pub open spec fn spec_spends_map(self, tx_hash: Seq<u8>) -> Seq<(u32, Option<Seq<u8>>)> {
        let m1 = fold_spends(
            Seq::empty(),
            filter_prefix(self.mempool_utxo_set_add.pairs(), tx_hash),
            false,
        );
        let m2 = fold_spends(m1, filter_prefix(self.utxo_set.pairs(), tx_hash), false);
        let m3 = fold_spends(m2, filter_prefix(self.mempool_tx_out_spend.pairs(), tx_hash), true);
        fold_spends(m3, filter_prefix(self.tx_out_spend_cf.pairs(), tx_hash), true)
    }

    pub open spec fn spec_spends_ok(self, tx_hash: Seq<u8>) -> bool {
        &&& spends_scan_ok(filter_prefix(self.mempool_utxo_set_add.pairs(), tx_hash), false)
        &&& spends_scan_ok(filter_prefix(self.utxo_set.pairs(), tx_hash), false)
        &&& spends_scan_ok(filter_prefix(self.mempool_tx_out_spend.pairs(), tx_hash), true)
        &&& spends_scan_ok(filter_prefix(self.tx_out_spend_cf.pairs(), tx_hash), true)
    }

    /// For each known output index of `tx_hash`: `None` while an unspent row
    /// exists, or the spend edge that consumed it. Confirmed rows override
    /// mempool rows of the same index.
    pub fn tx_out_spends(&self, tx_hash: &[u8]) -> (r: Result<
        Vec<(u32, Option<TxOutSpend>)>,
        DbError,
    >)
        requires
            self.wf(),
        ensures
            r is Ok <==> self.spec_spends_ok(tx_hash@),
            r matches Ok(rows) ==> {
                &&& rows@.len() == self.spec_spends_map(tx_hash@).len()
                &&& forall|i: int| 0 <= i < rows@.len() ==> (#[trigger] rows@[i]).0
                    == self.spec_spends_map(tx_hash@)[i].0 && (match rows@[i].1 {
                    Some(sp) => self.spec_spends_map(tx_hash@)[i].1 == Some(sp.enc()),
                    None => self.spec_spends_map(tx_hash@)[i].1 is None,
                })
            },
    {
        let mut acc: Vec<(u32, Option<TxOutSpend>)> = Vec::new();
        let scan1 = self.mempool_utxo_set_add.scan_prefix(tx_hash);
        let ghost m0 = Seq::<(u32, Option<Seq<u8>>)>::empty();
        proof {
            assert(spends_view(acc@) =~~= m0);
        }
        let ok1 = fold_scan(&mut acc, &scan1, false);
        if !ok1 {
            return Err(DbError::Decode);
        }
        let scan2 = self.utxo_set.scan_prefix(tx_hash);
        let ok2 = fold_scan(&mut acc, &scan2, false);
        if !ok2 {
            return Err(DbError::Decode);
        }
        let scan3 = self.mempool_tx_out_spend.scan_prefix(tx_hash);
        let ok3 = fold_scan(&mut acc, &scan3, true);
        if !ok3 {
            return Err(DbError::Decode);
        }
        let scan4 = self.tx_out_spend_cf.scan_prefix(tx_hash);
        let ok4 = fold_scan(&mut acc, &scan4, true);
        if !ok4 {
            return Err(DbError::Decode);
        }
        proof {
            assert(spends_view(acc@) =~~= self.spec_spends_map(tx_hash@));
        }
        Ok(acc)
    }
}

/// Spec view of one spend-map entry.
pub open spec fn spend_pair_view(e: (u32, Option<TxOutSpend>)) -> (u32, Option<Seq<u8>>) {
    (
        e.0,
        match e.1 {
            Some(sp) => Some(sp.enc()),
            None => None,
        },
    )
}

/// Spec view of the in-progress spend map.
pub open spec fn spends_view(acc: Seq<(u32, Option<TxOutSpend>)>) -> Seq<(u32, Option<Seq<u8>>)> {
    acc.map(|_i: int, e: (u32, Option<TxOutSpend>)| spend_pair_view(e))
}

/// Fold one scan's entries into the spend map, rejecting malformed rows.
fn fold_scan(acc: &mut Vec<(u32, Option<TxOutSpend>)>, entries: &Vec<KvEntry>, spent: bool) -> (ok:
    bool)
    ensures
        ok <==> spends_scan_ok(entries@.map(|_i: int, e: KvEntry| e.pair()), spent),
        ok ==> spends_view(final(acc)@) =~~= fold_spends(
            spends_view(old(acc)@),
            entries@.map(|_i: int, e: KvEntry| e.pair()),
            spent,
        ),
{
    let ghost pairs = entries@.map(|_i: int, e: KvEntry| e.pair());
    let n: usize = entries.len();
    // validate first, so a malformed row leaves the map untouched
    let mut i: usize = 0;
    while i < n
        invariant
            0 <= i <= n,
            n == pairs.len(),
            pairs =~~= entries@.map(|_i: int, e: KvEntry| e.pair()),
            forall|j: int| 0 <= j < i ==> (#[trigger] pairs[j]).0.len() == 36 && (spent
                ==> pairs[j].1.len() == 36),
        decreases n - i,
    {
        if entries[i].key.len() != 36 || (spent && entries[i].value.len() != 36) {
            proof {
                assert(pairs[i as int] == entries@[i as int].pair());
                assert(pairs[i as int].0.len() != 36 || (spent && pairs[i as int].1.len() != 36));
            }
            return false;
        }
        i = i + 1;
    }
    let mut i: usize = 0;
    while i < n
        invariant
            0 <= i <= n,
            n == pairs.len(),
            pairs =~~= entries@.map(|_i: int, e: KvEntry| e.pair()),
            spends_scan_ok(pairs, spent),
            spends_view(acc@) =~~= fold_spends(
                spends_view(old(acc)@),
                pairs.subrange(0, i as int),
                spent,
            ),
        decreases n - i,
    {
        proof {
            assert(pairs.subrange(0, i + 1).drop_last() =~= pairs.subrange(0, i as int));
            assert(pairs.subrange(0, i + 1).last() == pairs[i as int]);
        }
        proof {
            assert(pairs[i as int] == entries@[i as int].pair());
        }
        let idx: u32 = crate::keys::read_be32(entries[i].key.as_slice(), 32);
        let v: Option<TxOutSpend> = if spent {
            let dec = TxOutSpend::decode(entries[i].value.as_slice());
            proof {
                assert(pairs[i as int].1.len() == 36);
            }
            match dec {
                Some(sp) => Some(sp),
                None => {
                    proof {
                        assert(false);
                    }
                    None
                },
            }
        } else {
            None
        };
        proof {
            assert(idx == be32_decode(pairs[i as int].0.subrange(32, 36)));
            if spent {
                assert(v is Some);
                crate::keys::lemma_be32_decode_enc(pairs[i as int].1.subrange(32, 36));
                assert(v->0.enc() =~= pairs[i as int].1);
                assert(v->0.enc() == pairs[i as int].1);
            }
        }
        upsert_spend(acc, idx, v);
        i = i + 1;
    }
    proof {
        assert(pairs.subrange(0, n as int) =~= pairs);
    }
    true
}

/// Apply one row to the in-progress spend map.
fn upsert_spend(acc: &mut Vec<(u32, Option<TxOutSpend>)>, idx: u32, v: Option<TxOutSpend>)
    ensures
        spends_view(final(acc)@) =~~= spend_upsert(
            spends_view(old(acc)@),
            idx,
            match v {
                Some(sp) => Some(sp.enc()),
                None => None,
            },
        ),
{
    let ghost vv: Option<Seq<u8>> = spend_pair_view((idx, v)).1;
    let n: usize = acc.len();
    let mut j: usize = 0;
    while j < n
        invariant
            0 <= j <= n,
            n == acc@.len(),
            acc == old(acc),
            forall|k: int| 0 <= k < j ==> (#[trigger] spends_view(acc@)[k]).0 != idx,
        decreases n - j,
    {
        if acc[j].0 == idx {
            let ghost vv: Option<Seq<u8>> = spend_pair_view((idx, v)).1;
            proof {
                lemma_spend_upsert_skip(spends_view(old(acc)@), j as int, idx, vv);
                assert(spends_view(old(acc)@).skip(j as int)[0].0 == idx);
            }
            acc.set(j, (idx, v));
            proof {
                let ov = spends_view(old(acc)@);
                assert(acc@ =~= old(acc)@.update(j as int, (idx, v)));
                assert forall|k: int| 0 <= k < acc@.len() implies #[trigger] spends_view(acc@)[k]
                    =~~= ov.update(j as int, (idx, vv))[k] by {
                    assert(spends_view(acc@)[k] == spend_pair_view(acc@[k]));
                    if k == j {
                        assert(acc@[k] == (idx, v));
                        assert(spend_pair_view((idx, v)) == (idx, vv));
                    } else {
                        assert(acc@[k] == old(acc)@[k]);
                        assert(ov[k] == spend_pair_view(old(acc)@[k]));
                    }
                }
                assert(spends_view(acc@) =~~= ov.update(j as int, (idx, vv)));
                assert(ov.skip(j as int).skip(1) =~= ov.skip(j + 1));
                assert(spend_upsert(ov.skip(j as int), idx, vv) =~= seq![(idx, vv)] + ov.skip(
                    j + 1,
                ));
                assert(ov.update(j as int, (idx, vv)) =~= ov.subrange(0, j as int) + (seq![
                    (idx, vv),
                ] + ov.skip(j + 1)));
                assert(spends_view(acc@) =~~= spend_upsert(ov, idx, vv));
                assert(vv == spend_pair_view((idx, v)).1);
            }
            return ;
        }
        j = j + 1;
    }
    acc.push((idx, v));
    proof {
        lemma_spend_upsert_skip(spends_view(old(acc)@), n as int, idx, vv);
        assert(spends_view(old(acc)@).skip(n as int).len() == 0);
        assert(spends_view(acc@) =~~= spends_view(old(acc)@) + spend_upsert(
            spends_view(old(acc)@).skip(n as int),
            idx,
            vv,
        ));
    }
}


/// One balance group: a token id (or none for the plain-coin bucket), its
/// unspent outputs, and their saturating totals.
pub struct BalanceGroup {
    pub token_id: Option<[u8; 32]>,
    pub utxos: Vec<(UtxoKey, Utxo)>,
    pub sats_amount: i64,
    pub token_amount: u64,
}

/// An address's holdings, grouped by token id; the plain-coin bucket is
/// always present and first.
pub struct AddressBalance {
    pub groups: Vec<BalanceGroup>,
}

/// Spec view of one group: token id by content, utxos by key and record
/// bytes, and the two totals.
pub open spec fn group_view(g: BalanceGroup) -> (
    Option<Seq<u8>>,
    Seq<(Seq<u8>, Seq<u8>)>,
    i64,
    u64,
) {
    (
        match g.token_id {
            Some(t) => Some(t@),
            None => None,
        },
        g.utxos@.map(|_i: int, e: (UtxoKey, Utxo)| (e.0.enc(), e.1.enc())),
        g.sats_amount,
        g.token_amount,
    )
}

pub open spec fn groups_view(gs: Seq<BalanceGroup>) -> Seq<
    (Option<Seq<u8>>, Seq<(Seq<u8>, Seq<u8>)>, i64, u64),
> {
    gs.map(|_i: int, g: BalanceGroup| group_view(g))
}

/// The token id carried by a UTXO record's bytes.
pub open spec fn spec_utxo_token_of(v: Seq<u8>) -> Option<Seq<u8>> {
    if v.len() == 54 && v[21] == 1 {
        Some(v.subrange(22, 54))
    } else {
        None
    }
}

/// Add one resolved UTXO to its token's group, appending a fresh group on a
/// token's first appearance.
pub open spec fn balance_upsert(
    gs: Seq<(Option<Seq<u8>>, Seq<(Seq<u8>, Seq<u8>)>, i64, u64)>,
    key: Seq<u8>,
    v: Seq<u8>,
) -> Seq<(Option<Seq<u8>>, Seq<(Seq<u8>, Seq<u8>)>, i64, u64)>
    decreases gs.len(),
{
    let token = spec_utxo_token_of(v);
    let sats = crate::codec::dec_i64(v.subrange(0, 8));
    let tokens = crate::codec::le64_decode(v.subrange(8, 16));
    if gs.len() == 0 {
        seq![
            (
                token,
                seq![(key, v)],
                crate::schema::sat_add_i64(0, sats as int),
                crate::slp::sat_add_u64(0, tokens),
            ),
        ]
    } else if gs[0].0 == token {
        seq![
            (
                token,
                gs[0].1.push((key, v)),
                crate::schema::sat_add_i64(gs[0].2 as int, sats as int),
                crate::slp::sat_add_u64(gs[0].3, tokens),
            ),
        ] + gs.skip(1)
    } else {
        seq![gs[0]] + balance_upsert(gs.skip(1), key, v)
    }
}

proof fn lemma_balance_upsert_skip(
    gs: Seq<(Option<Seq<u8>>, Seq<(Seq<u8>, Seq<u8>)>, i64, u64)>,
    j: int,
    key: Seq<u8>,
    v: Seq<u8>,
)
    requires
        0 <= j <= gs.len(),
        forall|k: int| 0 <= k < j ==> (#[trigger] gs[k]).0 != spec_utxo_token_of(v),
    ensures
        balance_upsert(gs, key, v) =~~= gs.subrange(0, j) + balance_upsert(gs.skip(j), key, v),
    decreases j,
{
    if j == 0 {
        assert(gs.skip(0) =~= gs);
        assert(gs.subrange(0, 0) =~= Seq::<
            (Option<Seq<u8>>, Seq<(Seq<u8>, Seq<u8>)>, i64, u64),
        >::empty());
    } else {
        lemma_balance_upsert_skip(gs.skip(1), j - 1, key, v);
        assert(gs.skip(1).skip(j - 1) =~= gs.skip(j));
        assert(seq![gs[0]] + (gs.skip(1).subrange(0, j - 1) + balance_upsert(
            gs.skip(j),
            key,
            v,
        )) =~~= gs.subrange(0, j) + balance_upsert(gs.skip(j), key, v));
    }
}

impl IndexDb {
    /// Fold the membership rows into groups: resolve each through the
    /// overlay, skip spent ones, group the rest.
    pub open spec fn spec_balance_fold(
        self,
        gs: Seq<(Option<Seq<u8>>, Seq<(Seq<u8>, Seq<u8>)>, i64, u64)>,
        entries: Seq<(Seq<u8>, Seq<u8>)>,
    ) -> Seq<(Option<Seq<u8>>, Seq<(Seq<u8>, Seq<u8>)>, i64, u64)>
        decreases entries.len(),
    {
        if entries.len() == 0 {
            gs
        } else {
            let prev = self.spec_balance_fold(gs, entries.drop_last());
            let k = entries.last().0.subrange(21, 57);
            match self.overlay_utxo_bytes(k) {
                Some(v) => balance_upsert(prev, k, v),
                None => prev,
            }
        }
    }

    /// The seed: one empty plain-coin bucket.
    pub open spec fn spec_balance_seed() -> Seq<
        (Option<Seq<u8>>, Seq<(Seq<u8>, Seq<u8>)>, i64, u64),
    > {
        seq![(None, Seq::empty(), 0i64, 0u64)]
    }

    /// The two membership scans feeding an address's balance, in fold order.
    pub open spec fn spec_balance_groups(self, p: Seq<u8>) -> Seq<
        (Option<Seq<u8>>, Seq<(Seq<u8>, Seq<u8>)>, i64, u64),
    > {
        let m1 = self.spec_balance_fold(
            Self::spec_balance_seed(),
            filter_prefix(self.mempool_addr_utxo_add.pairs(), p),
        );
        self.spec_balance_fold(m1, filter_prefix(self.addr_utxo.pairs(), p))
    }

    /// One membership row is well stored: its key has the address/utxo
    /// shape, and if the output is unspent under the overlay its record
    /// decodes.
    pub open spec fn spec_balance_entry_ok(self, e: (Seq<u8>, Seq<u8>)) -> bool {
        &&& e.0.len() == 57
        &&& (match self.overlay_utxo_bytes(e.0.subrange(21, 57)) {
            Some(v) => exists|u: Utxo| v == u.enc(),
            None => true,
        })
    }

    /// All membership keys are well-formed and every unspent record decodes.
    pub open spec fn spec_balance_ok(self, p: Seq<u8>) -> bool {
        forall|e: (Seq<u8>, Seq<u8>)|
            (filter_prefix(self.mempool_addr_utxo_add.pairs(), p).contains(e) || filter_prefix(
                self.addr_utxo.pairs(),
                p,
            ).contains(e)) ==> #[trigger] self.spec_balance_entry_ok(e)
    }

    /// An address's unspent outputs and balances, grouped by token id. The
    /// plain-coin bucket is always present and first; mempool removals are
    /// honored because every row resolves through the overlay.
    pub fn address_balance(&self, sats_address: &AddrKeyPrefix) -> (r: Result<
        AddressBalance,
        DbError,
    >)
        requires
            self.wf(),
        ensures
            r matches Ok(b) ==> groups_view(b.groups@) =~~= self.spec_balance_groups(
                sats_address.enc(),
            ),
            self.spec_balance_ok(sats_address.enc()) ==> r is Ok,
    {
        let prefix = sats_address.encode();
        let mut groups: Vec<BalanceGroup> = Vec::new();
        groups.push(
            BalanceGroup { token_id: None, utxos: Vec::new(), sats_amount: 0, token_amount: 0 },
        );
        proof {
            assert(groups_view(groups@) =~~= Self::spec_balance_seed());
        }
        let scan1 = self.mempool_addr_utxo_add.scan_prefix(prefix.as_slice());
        match self.balance_fold_scan(&mut groups, &scan1) {
            Ok(()) => {},
            Err(e) => {
                proof {
                    self.lemma_bad_scan_breaks_balance_ok(
                        scan1@,
                        filter_prefix(self.mempool_addr_utxo_add.pairs(), sats_address.enc()),
                        sats_address.enc(),
                    );
                }
                return Err(e);
            },
        }
        let scan2 = self.addr_utxo.scan_prefix(prefix.as_slice());
        match self.balance_fold_scan(&mut groups, &scan2) {
            Ok(()) => {},
            Err(e) => {
                proof {
                    self.lemma_bad_scan_breaks_balance_ok(
                        scan2@,
                        filter_prefix(self.addr_utxo.pairs(), sats_address.enc()),
                        sats_address.enc(),
                    );
                }
                return Err(e);
            },
        }
        proof {
            assert(groups_view(groups@) =~~= self.spec_balance_groups(sats_address.enc()));
        }
        Ok(AddressBalance { groups })
    }

    /// A bad row in either membership scan falsifies the whole-store
    /// predicate.
    proof fn lemma_bad_scan_breaks_balance_ok(
        self,
        entries: Seq<KvEntry>,
        filtered: Seq<(Seq<u8>, Seq<u8>)>,
        p: Seq<u8>,
    )
        requires
            entries.map(|_i: int, e: KvEntry| e.pair()) =~~= filtered,
            filtered == filter_prefix(self.mempool_addr_utxo_add.pairs(), p) || filtered
                == filter_prefix(self.addr_utxo.pairs(), p),
            !(forall|j: int|
                0 <= j < entries.len() ==> self.spec_balance_entry_ok(
                    (#[trigger] entries[j]).pair(),
                )),
        ensures
            !self.spec_balance_ok(p),
    {
        let pairs = entries.map(|_i: int, e: KvEntry| e.pair());
        let j = choose|j: int|
            0 <= j < entries.len() && !self.spec_balance_entry_ok((#[trigger] entries[j]).pair());
        assert(pairs[j] == entries[j].pair());
        assert(pairs[j].0 =~= filtered[j].0 && pairs[j].1 =~= filtered[j].1);
        assert(pairs[j] == filtered[j]);
        assert(filtered.contains(filtered[j]));
        assert(!self.spec_balance_entry_ok(filtered[j]));
    }

    /// Fold one membership scan into the balance groups.
    fn balance_fold_scan(&self, groups: &mut Vec<BalanceGroup>, entries: &Vec<KvEntry>) -> (r:
        Result<(), DbError>)
        requires
            self.wf(),
        ensures
            r is Ok ==> groups_view(final(groups)@) =~~= self.spec_balance_fold(
                groups_view(old(groups)@),
                entries@.map(|_i: int, e: KvEntry| e.pair()),
            ),
            (forall|j: int|
                0 <= j < entries@.len() ==> self.spec_balance_entry_ok(
                    (#[trigger] entries@[j]).pair(),
                )) ==> r is Ok,
    {
        let ghost pairs = entries@.map(|_i: int, e: KvEntry| e.pair());
        let n: usize = entries.len();
        let mut i: usize = 0;
        while i < n
            invariant
                0 <= i <= n,
                n == pairs.len(),
                self.wf(),
                pairs =~~= entries@.map(|_i: int, e: KvEntry| e.pair()),
                groups_view(groups@) =~~= self.spec_balance_fold(
                    groups_view(old(groups)@),
                    pairs.subrange(0, i as int),
                ),
            decreases n - i,
        {
            proof {
                assert(pairs.subrange(0, i + 1).drop_last() =~= pairs.subrange(0, i as int));
                assert(pairs.subrange(0, i + 1).last() == pairs[i as int]);
                assert(pairs[i as int] == entries@[i as int].pair());
            }
            if entries[i].key.len() != 57 {
                proof {
                    assert(!self.spec_balance_entry_ok(pairs[i as int]));
                }
                return Err(DbError::Decode);
            }
            let utxo_key = match crate::keys::AddrUtxoKey::decode(entries[i].key.as_slice()) {
                Some(k) => k.utxo_key,
                None => {
                    proof {
                        assert(false);
                    }
                    return Err(DbError::Decode);
                },
            };
            proof {
                crate::keys::lemma_be32_decode_enc(
                    pairs[i as int].0.subrange(21, 57).subrange(32, 36),
                );
                assert(pairs[i as int].0.subrange(21, 57).subrange(32, 36) =~= pairs[i as int].0
                    .subrange(53, 57));
                assert(pairs[i as int].0.subrange(21, 57).subrange(0, 32) =~= pairs[i as int].0
                    .subrange(21, 53));
                assert(utxo_key.enc() =~= pairs[i as int].0.subrange(21, 57));
                assert(utxo_key.enc() == pairs[i as int].0.subrange(21, 57));
            }
            match self.utxo(&utxo_key) {
                Ok(Some(u)) => {
                    let ghost k = pairs[i as int].0.subrange(21, 57);
                    let ghost v = self.overlay_utxo_bytes(k)->0;
                    proof {
                        assert(u.enc() == v);
                    }
                    balance_add(groups, &utxo_key, &u);
                    proof {
                        assert(groups_view(groups@) =~~= self.spec_balance_fold(
                            groups_view(old(groups)@),
                            pairs.subrange(0, i + 1),
                        ));
                    }
                },
                Ok(None) => {
                },
                Err(e) => {
                    proof {
                        assert(match self.overlay_utxo_bytes(pairs[i as int].0.subrange(21, 57)) {
                            Some(v) => !(exists|u: Utxo| v == u.enc()),
                            None => false,
                        });
                        assert(!self.spec_balance_entry_ok(pairs[i as int]));
                    }
                    return Err(e);
                },
            }
            i = i + 1;
        }
        proof {
            assert(pairs.subrange(0, n as int) =~= pairs);
        }
        Ok(())
    }
}

/// Add one unspent output to its group.
fn balance_add(groups: &mut Vec<BalanceGroup>, key: &UtxoKey, u: &Utxo)
    ensures
        groups_view(final(groups)@) =~~= balance_upsert(
            groups_view(old(groups)@),
            key.enc(),
            u.enc(),
    ),
{
    proof {
        lemma_utxo_token_bytes(*u);
    }
    let n: usize = groups.len();
    let mut j: usize = 0;
    while j < n
        invariant
            0 <= j <= n,
            n == groups@.len(),
            groups == old(groups),
            spec_utxo_token_of(u.enc()) == (match u.token_id {
                Some(t) => Some(t@),
                None => None::<Seq<u8>>,
            }),
            forall|k: int| 0 <= k < j ==> (#[trigger] groups_view(groups@)[k]).0
                != spec_utxo_token_of(u.enc()),
        decreases n - j,
    {
        let same: bool = token_ids_equal(&groups[j].token_id, &u.token_id);
        if same {
            let ghost gv = groups_view(old(groups)@);
            let ghost kk = key.enc();
            let ghost vv = u.enc();
            proof {
                lemma_balance_upsert_skip(gv, j as int, kk, vv);
                assert(gv.skip(j as int)[0].0 == spec_utxo_token_of(vv));
            }
            let g = &groups[j];
            let mut new_utxos: Vec<(UtxoKey, Utxo)> = Vec::new();
            let m: usize = g.utxos.len();
            let mut t: usize = 0;
            while t < m
                invariant
                    0 <= t <= m,
                    0 <= j < groups@.len(),
                    groups == old(groups),
                    m == groups@[j as int].utxos@.len(),
                    new_utxos@ =~= groups@[j as int].utxos@.subrange(0, t as int),
                decreases m - t,
            {
                let e = &groups[j].utxos[t];
                new_utxos.push((e.0, e.1));
                t = t + 1;
            }
            proof {
                assert(new_utxos@ =~= groups@[j as int].utxos@);
            }
            new_utxos.push((*key, *u));
            let new_group = BalanceGroup {
                token_id: groups[j].token_id,
                utxos: new_utxos,
                sats_amount: crate::schema::sat_add(groups[j].sats_amount, u.sats_amount),
                token_amount: sat_add_u64_exec(groups[j].token_amount, u.token_amount),
            };
            groups.set(j, new_group);
            proof {
                lemma_utxo_sats_bytes(*u);
                assert forall|k: int| 0 <= k < groups@.len() implies #[trigger] groups_view(
                    groups@,
                )[k] =~~= (gv.subrange(0, j as int) + balance_upsert(
                    gv.skip(j as int),
                    kk,
                    vv,
                ))[k] by {
                    assert(groups_view(groups@)[k] == group_view(groups@[k]));
                    if k != j {
                        assert(groups@[k] == old(groups)@[k]);
                    }
                }
                assert(groups_view(groups@) =~~= balance_upsert(gv, kk, vv));
            }
            return ;
        }
        j = j + 1;
    }
    let ghost gv = groups_view(old(groups)@);
    let ghost kk = key.enc();
    let ghost vv = u.enc();
    proof {
        lemma_balance_upsert_skip(gv, n as int, kk, vv);
        assert(gv.skip(n as int).len() == 0);
        lemma_utxo_sats_bytes(*u);
    }
    let mut utxos: Vec<(UtxoKey, Utxo)> = Vec::new();
    utxos.push((*key, *u));
    let new_group = BalanceGroup {
        token_id: u.token_id,
        utxos,
        sats_amount: crate::schema::sat_add(0, u.sats_amount),
        token_amount: sat_add_u64_exec(0, u.token_amount),
    };
    groups.push(new_group);
    proof {
        assert(groups_view(groups@) =~~= gv + balance_upsert(gv.skip(n as int), kk, vv));
    }
}

/// Saturating `u64` addition.
fn sat_add_u64_exec(a: u64, b: u64) -> (r: u64)
    ensures
        r == crate::slp::sat_add_u64(a, b),
{
    if a > u64::MAX - b {
        u64::MAX
    } else {
        a + b
    }
}

/// Compare two optional token ids by content.
fn token_ids_equal(a: &Option<[u8; 32]>, b: &Option<[u8; 32]>) -> (r: bool)
    ensures
        r == ((match a {
            Some(t) => Some(t@),
            None => None::<Seq<u8>>,
        }) == (match b {
            Some(t) => Some(t@),
            None => None::<Seq<u8>>,
        })),
{
    match (a, b) {
        (None, None) => true,
        (Some(x), Some(y)) =>

            match crate::bytesord::cmp_bytes(x.as_slice(), y.as_slice()) {
                crate::bytesord::ByteOrd::Equal => true,
                _ => {
                    proof {
                        crate::bytesord::lemma_lex_total(x@, y@);
                    }
                    false
                },
            },
        (Some(x), None) => false,
        (None, Some(y)) => false,
    }
}

/// The token-id field of a UTXO record's bytes is the record's token id.
proof fn lemma_utxo_token_bytes(u: Utxo)
    ensures
        spec_utxo_token_of(u.enc()) == (match u.token_id {
            Some(t) => Some(t@),
            None => None::<Seq<u8>>,
        }),
{
    match u.token_id {
        Some(t) => {
            assert(u.enc().len() == 54);
            assert(u.enc()[21] == 1);
            assert(u.enc().subrange(22, 54) =~= t@);
        },
        None => {
            assert(u.enc().len() == 22);
        },
    }
}

/// The amounts read back from a UTXO record's bytes.
proof fn lemma_utxo_sats_bytes(u: Utxo)
    ensures
        crate::codec::dec_i64(u.enc().subrange(0, 8)) == u.sats_amount,
        crate::codec::le64_decode(u.enc().subrange(8, 16)) == u.token_amount,
{
    assert(u.enc().subrange(0, 8) =~= crate::codec::enc_i64(u.sats_amount));
    assert(u.enc().subrange(8, 16) =~= crate::codec::le64(u.token_amount));
    crate::codec::lemma_i64_round_trip(u.sats_amount);
    crate::codec::lemma_le64_round_trip(u.token_amount);
}


/// The raw hash bytes a search query denotes, if it parses as hex.
pub open spec fn spec_search_bytes(q: Seq<char>) -> Option<Seq<u8>> {
    match crate::hexstr::hex_decode(q) {
        Some(d) => Some(d.reverse()),
        None => None,
    }
}

impl IndexDb {
    /// The overlay holds a decodable tx record under these bytes.
    pub open spec fn spec_tx_hit(self, b: Seq<u8>) -> bool {
        match self.overlay_tx_meta_bytes(b) {
            Some(v) => exists|m: TxMeta| m.wf() && v == m.enc(),
            None => false,
        }
    }

    /// The confirmed layer holds a decodable block record under these bytes.
    pub open spec fn spec_block_hit(self, b: Seq<u8>) -> bool {
        match self.at(CfId::BlockMetaCf, b) {
            Some(v) => exists|m: BlockMeta| m.wf() && v == m.enc(),
            None => false,
        }
    }

    /// The outcome of the final search step, reading the query as a decimal
    /// block height: the height page when a block is committed there, no
    /// match when none is, and no match when the query is not a number.
    pub open spec fn spec_height_outcome(
        self,
        q: Seq<char>,
        r: Result<Option<String>, DbError>,
    ) -> bool {
        match crate::hexstr::spec_parse_u32(q) {
            Some(h) => {
                &&& (self.at(CfId::BlockHeightIdx, be32(h)) matches Some(hv) && hv.len() == 32)
                    ==> (r matches Ok(Some(u)) && u@ == "/block-height/"@ + crate::hexstr::dec_str(
                    h as int,
                ))
                &&& self.at(CfId::BlockHeightIdx, be32(h)) is None ==> r == Ok::<
                    Option<String>,
                    DbError,
                >(None)
            },
            None => r == Ok::<Option<String>, DbError>(None),
        }
    }

    /// Resolve a free-form search query to a canonical path, first match
    /// winning. The caller hands in the query's cash-address parse (the
    /// address codec lives with the presentation layer): an address wins
    /// outright; otherwise the query is read as a little-endian hex hash and
    /// tried as a tx, then as a block; failing those — including when the
    /// query is not hex at all — it is read as a decimal block height.
    pub fn search(&self, query: &str, parsed_address: Option<&String>) -> (r: Result<
        Option<String>,
        DbError,
    >)
        requires
            self.wf(),
        ensures
            parsed_address matches Some(a) ==> (r matches Ok(Some(u)) && u@ == "/address/"@ + a@),
            parsed_address is None && spec_search_bytes(query@) is None
                ==> self.spec_height_outcome(query@, r),
            parsed_address is None ==> (spec_search_bytes(query@) matches Some(b) ==> {
                &&& self.spec_tx_hit(b) ==> (r matches Ok(Some(u)) && u@ == "/tx/"@ + query@)
                &&& (self.overlay_tx_meta_bytes(b) is None && self.spec_block_hit(b)) ==> (
                r matches Ok(Some(u)) && u@ == "/block/"@ + query@)
                &&& (self.overlay_tx_meta_bytes(b) is None && self.at(CfId::BlockMetaCf, b) is None)
                    ==> self.spec_height_outcome(query@, r)
            }),
    {
        if let Some(addr) = parsed_address {
            let path = String::from_str("/address/").concat(addr.as_str());
            return Ok(Some(path));
        }
        match crate::hexstr::from_le_hex(query) {
            Ok(bytes) => {
                match self.tx_meta(bytes.as_slice()) {
                    Ok(Some(_m)) => {
                        return Ok(Some(String::from_str("/tx/").concat(query)));
                    },
                    Ok(None) => {},
                    Err(e) => {
                        return Err(e);
                    },
                }
                match self.block_meta(bytes.as_slice()) {
                    Ok(Some(_m)) => {
                        return Ok(Some(String::from_str("/block/").concat(query)));
                    },
                    Ok(None) => {},
                    Err(e) => {
                        return Err(e);
                    },
                }
            },
            Err(()) => {},
        }
        match crate::hexstr::parse_u32(query) {
            Some(h) => match self.block_hash_at(h) {
                Ok(Some(_hash)) => {
                    let num = crate::hexstr::u32_to_dec(h);
                    Ok(Some(String::from_str("/block-height/").concat(num.as_str())))
                },
                Ok(None) => Ok(None),
                Err(e) => Err(e),
            },
            None => Ok(None),
        }
    }
}

} // verus!
