//! The ingest pipeline's decision core, and the live-feed resync step.
//!
//! Fetchers run concurrently and may finish out of order; the reorder shelf
//! holds finished batches until their height is next, so that blocks commit
//! in strict height order. The back-pressure rule caps how far a fetcher may
//! run ahead of the last committed height, bounding the shelf.
//!
//! The mempool resync builds one combined batch from the node's current
//! mempool, truncates all eight mempool families, and writes the batch; a
//! crash between the two steps is tolerated because the next resync starts
//! again from the truncation.

use vstd::prelude::*;

use vstd::multiset::Multiset;

use crate::chain::Transaction;
use crate::db::{IndexDb, BlockBatches, CfId, ops_lookup, is_mempool_cf};
use crate::schema::{make_mempool_tx_batches, spec_mempool_ops, spec_txs_ok, BatchError};

verus! {

/// Rebuild the mempool overlay from the node's current mempool listing:
/// build the combined batch, truncate all eight mempool families, then
/// apply the batch. On an empty listing this only truncates.
pub fn update_mempool(db: &mut IndexDb, txs: &Vec<Transaction>) -> (r: Result<(), BatchError>)
    requires
        old(db).wf(),
    ensures
        final(db).wf(),
        r is Ok <==> spec_txs_ok(txs@),
        r is Ok ==> forall|id: CfId, k: Seq<u8>| #[trigger] final(db).at(id, k) == ops_lookup(
            spec_mempool_ops(txs@),
            id,
            k,
            if is_mempool_cf(id) {
                None
            } else {
                old(db).at(id, k)
            },
        ),
        r is Err ==> *final(db) == *old(db),
{
    let batch = match make_mempool_tx_batches(txs) {
        Ok(batch) => batch,
        Err(e) => {
            return Err(e);
        },
    };
    db.clear_mempool();
    db.apply_batch(&batch);
    Ok(())
}

/// The canonical tip signal: a fetch that fails with exactly this message
/// means the chain's tip was passed and the fetcher stops cleanly; any other
/// fetch error is fatal for its worker.
pub fn is_tip_signal(msg: &str) -> (r: bool)
    ensures
        r == (msg@ =~= "block not found"@),
{
    proof {
        reveal_strlit("block not found");
    }
    let pattern: [char; 15] = [
        'b',
        'l',
        'o',
        'c',
        'k',
        ' ',
        'n',
        'o',
        't',
        ' ',
        'f',
        'o',
        'u',
        'n',
        'd',
    ];
    proof {
        assert(forall|j: int| 0 <= j < 15 ==> pattern@[j] == "block not found"@[j]);
    }
    let n: usize = msg.unicode_len();
    if n != 15 {
        return false;
    }
    let mut i: usize = 0;
    while i < 15
        invariant
            0 <= i <= 15,
            msg@.len() == 15,
            pattern@.len() == 15,
            "block not found"@.len() == 15,
            forall|j: int| 0 <= j < 15 ==> pattern@[j] == "block not found"@[j],
            forall|j: int| 0 <= j < i ==> msg@[j] == "block not found"@[j],
        decreases 15 - i,
    {
        if msg.get_char(i) != pattern[i] {
            return false;
        }
        i = i + 1;
    }
    proof {
        assert(msg@ =~= "block not found"@);
    }
    true
}

/// The fetcher back-pressure rule: suspend while the claimed height runs
/// more than `max_fetch_ahead` past the last committed height.
pub fn should_wait(claimed_height: u32, committed_height: u32, max_fetch_ahead: u32) -> (r: bool)
    ensures
        r == (claimed_height > committed_height + max_fetch_ahead),
{
    if committed_height > u32::MAX - max_fetch_ahead {
        false
    } else {
        claimed_height > committed_height + max_fetch_ahead
    }
}

/// The single-consumer commit core: a reorder shelf of finished batches and
/// the last committed height.
pub struct Pipeline {
    pub committed_height: u32,
    pub shelf: Vec<BlockBatches>,
}

impl Pipeline {
    /// Heights stashed on the shelf.
    pub open spec fn shelf_view(self) -> Seq<BlockBatches> {
        self.shelf@
    }

    pub fn new(last_height: u32) -> (p: Pipeline)
        ensures
            p.committed_height == last_height,
            p.shelf_view().len() == 0,
    {
        Pipeline { committed_height: last_height, shelf: Vec::new() }
    }

    /// How many batches are waiting on the shelf.
    pub fn shelf_len(&self) -> (n: usize)
        ensures
            n == self.shelf_view().len(),
    {
        self.shelf.len()
    }

    /// Take the batch with exactly this height off the shelf, if present;
    /// the shelf loses exactly that batch and nothing else.
    fn take_height(&mut self, height: u32) -> (r: Option<BlockBatches>)
        ensures
            final(self).committed_height == old(self).committed_height,
            r matches Some(b) ==> b.block_height as int == height as int
                && final(self).shelf_view().to_multiset().insert(b)
                =~~= old(self).shelf_view().to_multiset(),
            r is None ==> *final(self) == *old(self) && (forall|j: int|
                0 <= j < old(self).shelf_view().len()
                    ==> (#[trigger] old(self).shelf_view()[j]).block_height as int
                    != height as int),
    {
        broadcast use vstd::seq_lib::group_to_multiset_ensures;

        let n: usize = self.shelf.len();
        let mut j: usize = 0;
        while j < n
            invariant
                0 <= j <= n,
                n == self.shelf@.len(),
                self == old(self),
                forall|k: int| 0 <= k < j ==> (#[trigger] self.shelf@[k]).block_height as int
                    != height as int,
            decreases n - j,
        {
            let matches_height: bool = (self.shelf[j].block_height as i64) == (height as i64);
            if matches_height {
                let ghost pre = self.shelf@;
                let b = self.shelf.remove(j);
                proof {
                    broadcast use vstd::seq_lib::group_to_multiset_ensures;

                    assert(pre.remove(j as int).to_multiset() =~~= pre.to_multiset().remove(
                        pre[j as int],
                    ));
                    assert(pre.contains(pre[j as int]));
                    assert(pre.to_multiset().count(pre[j as int]) > 0);
                    assert(self.shelf@.to_multiset().insert(b) =~~= pre.to_multiset());
                }
                return Some(b);
            }
            j = j + 1;
        }
        None
    }

    /// Stash one arriving batch and pop every batch that is now ready: the
    /// popped batches are consecutive heights starting right after the
    /// committed height, every batch ready by then is popped (none with the
    /// next height stays behind), and together the shelf and the popped
    /// batches hold exactly the old shelf plus the arrival.
    pub fn on_batch(&mut self, batches: BlockBatches) -> (ready: Vec<BlockBatches>)
        ensures
            final(self).committed_height == old(self).committed_height + ready@.len(),
            forall|i: int| 0 <= i < ready@.len() ==> (#[trigger] ready@[i]).block_height as int
                == old(self).committed_height + 1 + i,
            final(self).committed_height < u32::MAX ==> forall|j: int|
                0 <= j < final(self).shelf_view().len()
                    ==> (#[trigger] final(self).shelf_view()[j]).block_height as int
                    != final(self).committed_height + 1,
            ready@.to_multiset().add(final(self).shelf_view().to_multiset())
                =~~= old(self).shelf_view().push(batches).to_multiset(),
    {
        broadcast use vstd::seq_lib::group_to_multiset_ensures;

        let ghost stocked = self.shelf_view().push(batches).to_multiset();
        self.shelf.push(batches);
        let mut ready: Vec<BlockBatches> = Vec::new();
        let ghost start = self.committed_height;
        loop
            invariant
                self.committed_height == start + ready@.len(),
                self.committed_height <= u32::MAX,
                forall|i: int| 0 <= i < ready@.len() ==> (#[trigger] ready@[i]).block_height as int
                    == start + 1 + i,
                ready@.to_multiset().add(self.shelf_view().to_multiset()) =~~= stocked,
            ensures
                self.committed_height == start + ready@.len(),
                forall|i: int| 0 <= i < ready@.len() ==> (#[trigger] ready@[i]).block_height as int
                    == start + 1 + i,
                ready@.to_multiset().add(self.shelf_view().to_multiset()) =~~= stocked,
                self.committed_height < u32::MAX ==> forall|j: int|
                    0 <= j < self.shelf_view().len() ==> (#[trigger] self.shelf_view()[j]).block_height
                        as int != self.committed_height + 1,
            decreases self.shelf_view().len(),
        {
            if self.committed_height == u32::MAX {
                break ;
            }
            let next: u32 = self.committed_height + 1;
            let ghost pre_shelf = self.shelf_view();
            match self.take_height(next) {
                Some(b) => {
                    let ghost pre_ready = ready@;
                    ready.push(b);
                    self.committed_height = next;
                    proof {
                        broadcast use vstd::seq_lib::group_to_multiset_ensures;

                        assert(ready@.to_multiset() =~~= pre_ready.to_multiset().insert(b));
                        assert(ready@.to_multiset().add(self.shelf_view().to_multiset())
                            =~~= pre_ready.to_multiset().add(
                            self.shelf_view().to_multiset().insert(b),
                        ));
                        assert(self.shelf_view().to_multiset().insert(b).len()
                            == self.shelf_view().to_multiset().len() + 1);
                        assert(self.shelf_view().to_multiset().insert(b) =~~= pre_shelf.to_multiset());
                        assert(self.shelf_view().len() < pre_shelf.len());
                    }
                },
                None => {
                    break ;
                },
            }
        }
        ready
    }
}

} // verus!
