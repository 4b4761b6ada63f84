//! An ordered key/value column family.
//!
//! Entries are kept sorted by the lexicographic byte order of their keys, so
//! point lookups, range scans and prefix scans all speak about one model: the
//! sorted sequence of key/value pairs, with [`lookup_in`] as the point-read
//! view of it. The composite keys encode integers big-endian, which makes a
//! prefix scan act as a range scan over those integers.

use vstd::prelude::*;

use crate::bytesord::{lex_lt, has_prefix, cmp_bytes, is_prefix_of, ByteOrd, lemma_lex_total,
    lemma_lex_trans};

verus! {

/// One key/value pair of a column family.
pub struct KvEntry {
    pub key: Vec<u8>,
    pub value: Vec<u8>,
}

impl KvEntry {
    pub open spec fn pair(self) -> (Seq<u8>, Seq<u8>) {
        (self.key@, self.value@)
    }
}

/// Point lookup in a sequence of pairs: the value of the first entry whose
/// key matches, searching from the front.
pub open spec fn lookup_in(s: Seq<(Seq<u8>, Seq<u8>)>, k: Seq<u8>) -> Option<Seq<u8>>
    decreases s.len(),
{
    if s.len() == 0 {
        None
    } else if s[0].0 == k {
        Some(s[0].1)
    } else {
        lookup_in(s.skip(1), k)
    }
}

/// The keys of `s` are strictly ascending.
pub open spec fn sorted(s: Seq<(Seq<u8>, Seq<u8>)>) -> bool {
    forall|i: int, j: int| 0 <= i < j < s.len() ==> lex_lt(#[trigger] s[i].0, #[trigger] s[j].0)
}

/// In a sorted sequence a present key means a matching index, and an absent
/// key means none matches.
pub proof fn lemma_lookup_index(s: Seq<(Seq<u8>, Seq<u8>)>, k: Seq<u8>)
    ensures
        lookup_in(s, k) matches Some(v) ==> exists|i: int| 0 <= i < s.len() && s[i].0 == k && s[i].1
            == v,
        lookup_in(s, k) is None ==> forall|i: int| 0 <= i < s.len() ==> s[i].0 != k,
    decreases s.len(),
{
    if s.len() == 0 {
    } else if s[0].0 == k {
    } else {
        lemma_lookup_index(s.skip(1), k);
        match lookup_in(s, k) {
            Some(v) => {
                let i = choose|i: int|
                    0 <= i < s.skip(1).len() && s.skip(1)[i].0 == k && s.skip(1)[i].1 == v;
                assert(s[i + 1].0 == k && s[i + 1].1 == v);
            },
            None => {
                assert(forall|i: int| 1 <= i < s.len() ==> s[i].0 == s.skip(1)[i - 1].0);
            },
        }
    }
}

/// In a sorted sequence, the entry at any index is what lookup finds.
pub proof fn lemma_index_lookup(s: Seq<(Seq<u8>, Seq<u8>)>, i: int)
    requires
        sorted(s),
        0 <= i < s.len(),
    ensures
        lookup_in(s, s[i].0) == Some(s[i].1),
    decreases i,
{
    if i == 0 {
    } else {
        assert(lex_lt(s[0].0, s[i].0));
        assert(s[0].0 != s[i].0) by {
            lemma_lex_total(s[0].0, s[i].0);
        }
        lemma_index_lookup(s.skip(1), i - 1);
        assert(s.skip(1)[i - 1] == s[i]);
        assert(sorted(s.skip(1))) by {
            assert(forall|x: int|
                0 <= x < s.skip(1).len() ==> #[trigger] s.skip(1)[x] == s[x + 1]);
        }
    }
}

/// Inserting a pair at its sorted position changes exactly that key's lookup.
pub proof fn lemma_lookup_insert(s: Seq<(Seq<u8>, Seq<u8>)>, i: int, k: Seq<u8>, v: Seq<u8>)
    requires
        sorted(s),
        0 <= i <= s.len(),
        forall|j: int| 0 <= j < i ==> lex_lt(#[trigger] s[j].0, k),
        forall|j: int| i <= j < s.len() ==> lex_lt(k, #[trigger] s[j].0),
    ensures
        sorted(s.insert(i, (k, v))),
        forall|k2: Seq<u8>| #[trigger] lookup_in(s.insert(i, (k, v)), k2) == if k2 == k {
            Some(v)
        } else {
            lookup_in(s, k2)
        },
    decreases s.len(), i,
{
    let t = s.insert(i, (k, v));
    assert(sorted(t)) by {
        assert forall|x: int, y: int| 0 <= x < y < t.len() implies lex_lt(
            #[trigger] t[x].0,
            #[trigger] t[y].0,
        ) by {
            if x < i && y < i {
            } else if x < i && y == i {
            } else if x < i && y > i {
                assert(t[x] == s[x] && t[y] == s[y - 1]);
                if x < i - 1 || i - 1 < s.len() {
                }
                if y - 1 >= i {
                    lemma_lex_trans(s[x].0, k, s[y - 1].0);
                }
            } else if x == i && y > i {
            } else {
                assert(t[x] == s[x - 1] && t[y] == s[y - 1]);
            }
        }
    }
    assert forall|k2: Seq<u8>| #[trigger] lookup_in(t, k2) == (if k2 == k {
        Some(v)
    } else {
        lookup_in(s, k2)
    }) by {
        lemma_lookup_index(t, k2);
        lemma_lookup_index(s, k2);
        if k2 == k {
            lemma_index_lookup(t, i);
            assert(t[i] == (k, v));
        } else {
            match lookup_in(s, k2) {
                Some(v2) => {
                    let j = choose|j: int|
                        0 <= j < s.len() && s[j].0 == k2 && s[j].1 == v2;
                    if j < i {
                        lemma_index_lookup(t, j);
                        assert(t[j] == s[j]);
                    } else {
                        lemma_index_lookup(t, j + 1);
                        assert(t[j + 1] == s[j]);
                    }
                },
                None => {
                    assert forall|j: int| 0 <= j < t.len() implies #[trigger] t[j].0 != k2 by {
                        if j < i {
                            assert(t[j] == s[j]);
                        } else if j == i {
                        } else {
                            assert(t[j] == s[j - 1]);
                        }
                    }
                    if lookup_in(t, k2) matches Some(v2) {
                        lemma_lookup_index(t, k2);
                    }
                },
            }
        }
    }
}

/// Replacing the value at an index changes exactly that key's lookup.
pub proof fn lemma_lookup_update(s: Seq<(Seq<u8>, Seq<u8>)>, i: int, v: Seq<u8>)
    requires
        sorted(s),
        0 <= i < s.len(),
    ensures
        sorted(s.update(i, (s[i].0, v))),
        forall|k2: Seq<u8>| #[trigger] lookup_in(s.update(i, (s[i].0, v)), k2) == if k2 == s[i].0 {
            Some(v)
        } else {
            lookup_in(s, k2)
        },
{
    let t = s.update(i, (s[i].0, v));
    assert(sorted(t)) by {
        assert(forall|x: int| 0 <= x < s.len() ==> #[trigger] t[x].0 == s[x].0);
    }
    assert forall|k2: Seq<u8>| #[trigger] lookup_in(t, k2) == (if k2 == s[i].0 {
        Some(v)
    } else {
        lookup_in(s, k2)
    }) by {
        if k2 == s[i].0 {
            lemma_index_lookup(t, i);
        } else {
            lemma_lookup_index(s, k2);
            lemma_lookup_index(t, k2);
            match lookup_in(s, k2) {
                Some(v2) => {
                    let j = choose|j: int|
                        0 <= j < s.len() && s[j].0 == k2 && s[j].1 == v2;
                    assert(j != i);
                    lemma_index_lookup(t, j);
                    assert(t[j] == s[j]);
                },
                None => {
                    assert(forall|j: int| 0 <= j < t.len() ==> #[trigger] t[j].0 == s[j].0);
                    if lookup_in(t, k2) matches Some(v2) {
                    }
                },
            }
        }
    }
}

/// Removing the entry at an index clears exactly that key's lookup.
pub proof fn lemma_lookup_remove(s: Seq<(Seq<u8>, Seq<u8>)>, i: int)
    requires
        sorted(s),
        0 <= i < s.len(),
    ensures
        sorted(s.remove(i)),
        forall|k2: Seq<u8>| #[trigger] lookup_in(s.remove(i), k2) == if k2 == s[i].0 {
            None::<Seq<u8>>
        } else {
            lookup_in(s, k2)
        },
{
    let t = s.remove(i);
    assert(sorted(t)) by {
        assert forall|x: int, y: int| 0 <= x < y < t.len() implies lex_lt(
            #[trigger] t[x].0,
            #[trigger] t[y].0,
        ) by {
            assert(t[x] == if x < i {
                s[x]
            } else {
                s[x + 1]
            });
            assert(t[y] == if y < i {
                s[y]
            } else {
                s[y + 1]
            });
        }
    }
    assert forall|k2: Seq<u8>| #[trigger] lookup_in(t, k2) == (if k2 == s[i].0 {
        None::<Seq<u8>>
    } else {
        lookup_in(s, k2)
    }) by {
        lemma_lookup_index(s, k2);
        lemma_lookup_index(t, k2);
        if k2 == s[i].0 {
            assert forall|j: int| 0 <= j < t.len() implies #[trigger] t[j].0 != k2 by {
                let jj = if j < i {
                    j
                } else {
                    j + 1
                };
                assert(t[j] == s[jj]);
                if jj != i {
                    lemma_lex_total(s[jj].0, s[i].0);
                    if jj < i {
                        assert(lex_lt(s[jj].0, s[i].0));
                    } else {
                        assert(lex_lt(s[i].0, s[jj].0));
                    }
                }
            }
            if lookup_in(t, k2) matches Some(v2) {
            }
        } else {
            match lookup_in(s, k2) {
                Some(v2) => {
                    let j = choose|j: int|
                        0 <= j < s.len() && s[j].0 == k2 && s[j].1 == v2;
                    if j < i {
                        lemma_index_lookup(t, j);
                        assert(t[j] == s[j]);
                    } else {
                        assert(j > i);
                        lemma_index_lookup(t, j - 1);
                        assert(t[j - 1] == s[j]);
                    }
                },
                None => {
                    assert forall|j: int| 0 <= j < t.len() implies #[trigger] t[j].0 != k2 by {
                        assert(t[j] == if j < i {
                            s[j]
                        } else {
                            s[j + 1]
                        });
                    }
                    if lookup_in(t, k2) matches Some(v2) {
                    }
                },
            }
        }
    }
}

/// Copy a byte vector.
pub fn clone_bytes(v: &Vec<u8>) -> (r: Vec<u8>)
    ensures
        r@ =~= v@,
{
    let mut r: Vec<u8> = Vec::new();
    push_from(&mut r, v);
    r
}

fn push_from(dst: &mut Vec<u8>, src: &Vec<u8>)
    ensures
        final(dst)@ =~= old(dst)@ + src@,
{
    let n: usize = src.len();
    let mut i: usize = 0;
    while i < n
        invariant
            0 <= i <= n,
            n == src@.len(),
            dst@ =~= old(dst)@ + src@.subrange(0, i as int),
        decreases n - i,
    {
        dst.push(src[i]);
        i = i + 1;
    }
}

/// One column family: an ordered map from byte keys to byte values.
pub struct ColumnFamily {
    entries: Vec<KvEntry>,
}

impl ColumnFamily {
    /// The ordered key/value pairs.
    pub closed spec fn pairs(self) -> Seq<(Seq<u8>, Seq<u8>)> {
        self.entries@.map(|_i: int, e: KvEntry| e.pair())
    }

    /// Well-formed: keys strictly ascending (hence unique).
    pub open spec fn wf(self) -> bool {
        sorted(self.pairs())
    }

    /// The value under `k`, if present.
    pub open spec fn lookup(self, k: Seq<u8>) -> Option<Seq<u8>> {
        lookup_in(self.pairs(), k)
    }

    pub open spec fn contains_key(self, k: Seq<u8>) -> bool {
        self.lookup(k) is Some
    }

    pub fn new() -> (cf: ColumnFamily)
        ensures
            cf.wf(),
            cf.pairs() =~= Seq::<(Seq<u8>, Seq<u8>)>::empty(),
    {
        ColumnFamily { entries: Vec::new() }
    }

    pub fn num_entries(&self) -> (n: usize)
        ensures
            n == self.pairs().len(),
    {
        self.entries.len()
    }

    /// Key and value at position `i` of the order.
    pub fn entry_at(&self, i: usize) -> (e: (&Vec<u8>, &Vec<u8>))
        requires
            i < self.pairs().len(),
        ensures
            e.0@ == self.pairs()[i as int].0,
            e.1@ == self.pairs()[i as int].1,
    {
        let entry = &self.entries[i];
        (&entry.key, &entry.value)
    }

    /// The position of `key`, if present.
    fn find(&self, key: &[u8]) -> (r: Option<usize>)
        requires
            self.wf(),
        ensures
            r matches Some(i) ==> i < self.pairs().len() && self.pairs()[i as int].0 == key@
                && self.lookup(key@) == Some(self.pairs()[i as int].1),
            r is None ==> self.lookup(key@) is None,
    {
        let n: usize = self.entries.len();
        let mut i: usize = 0;
        while i < n
            invariant
                0 <= i <= n,
                n == self.pairs().len(),
                self.wf(),
                forall|j: int| 0 <= j < i ==> #[trigger] self.pairs()[j].0 != key@,
            decreases n - i,
        {
            if let ByteOrd::Equal = cmp_bytes(self.entries[i].key.as_slice(), key) {
                proof {
                    lemma_index_lookup(self.pairs(), i as int);
                }
                return Some(i);
            }
            i = i + 1;
        }
        proof {
            lemma_lookup_index(self.pairs(), key@);
            if self.lookup(key@) matches Some(v) {
            }
        }
        None
    }

    /// Point read.
    pub fn get(&self, key: &[u8]) -> (r: Option<&Vec<u8>>)
        requires
            self.wf(),
        ensures
            r matches Some(v) ==> self.lookup(key@) == Some(v@),
            r is None ==> self.lookup(key@) is None,
    {
        match self.find(key) {
            Some(i) => Some(&self.entries[i].value),
            None => None,
        }
    }

    /// Insert or replace.
    pub fn put(&mut self, key: Vec<u8>, value: Vec<u8>)
        requires
            old(self).wf(),
        ensures
            final(self).wf(),
            forall|k2: Seq<u8>| #[trigger] final(self).lookup(k2) == if k2 == key@ {
                Some(value@)
            } else {
                old(self).lookup(k2)
            },
    {
        let n: usize = self.entries.len();
        let mut i: usize = 0;
        while i < n
            invariant
                0 <= i <= n,
                n == self.pairs().len(),
                self.wf(),
                self == old(self),
                forall|j: int| 0 <= j < i ==> lex_lt(#[trigger] self.pairs()[j].0, key@),
            decreases n - i,
        {
            match cmp_bytes(self.entries[i].key.as_slice(), key.as_slice()) {
                ByteOrd::Equal => {
                    proof {
                        lemma_lookup_update(old(self).pairs(), i as int, value@);
                    }
                    let k = clone_bytes(&self.entries[i].key);
                    self.entries.set(i, KvEntry { key: k, value });
                    proof {
                        assert(self.pairs() =~= old(self).pairs().update(
                            i as int,
                            (old(self).pairs()[i as int].0, value@),
                        ));
                    }
                    return ;
                },
                ByteOrd::Less => {
                    i = i + 1;
                },
                ByteOrd::Greater => {
                    proof {
                        assert forall|j: int|
                            i <= j < self.pairs().len() implies lex_lt(
                            key@,
                            #[trigger] self.pairs()[j].0,
                        ) by {
                            if j > i {
                                lemma_lex_trans(key@, self.pairs()[i as int].0, self.pairs()[j].0);
                            }
                        }
                        lemma_lookup_insert(old(self).pairs(), i as int, key@, value@);
                    }
                    let ghost kview = key@;
                    let ghost vview = value@;
                    self.entries.insert(i, KvEntry { key, value });
                    proof {
                        assert(self.pairs() =~= old(self).pairs().insert(
                            i as int,
                            (kview, vview),
                        ));
                    }
                    return ;
                },
            }
        }
        proof {
            lemma_lookup_insert(old(self).pairs(), n as int, key@, value@);
        }
        let ghost kview = key@;
        let ghost vview = value@;
        self.entries.insert(n, KvEntry { key, value });
        proof {
            assert(self.pairs() =~= old(self).pairs().insert(n as int, (kview, vview)));
        }
    }

    /// Remove a key if present.
    pub fn delete(&mut self, key: &[u8])
        requires
            old(self).wf(),
        ensures
            final(self).wf(),
            forall|k2: Seq<u8>| #[trigger] final(self).lookup(k2) == if k2 == key@ {
                None::<Seq<u8>>
            } else {
                old(self).lookup(k2)
            },
    {
        match self.find(key) {
            Some(i) => {
                proof {
                    lemma_lookup_remove(old(self).pairs(), i as int);
                }
                self.entries.remove(i);
                proof {
                    assert(self.pairs() =~= old(self).pairs().remove(i as int));
                }
            },
            None => {
                proof {
                    lemma_lookup_index(old(self).pairs(), key@);
                }
            },
        }
    }

    /// Drop every entry; the delete-range form used to truncate a mempool
    /// column family.
    pub fn clear(&mut self)
        ensures
            final(self).wf(),
            final(self).pairs() =~= Seq::<(Seq<u8>, Seq<u8>)>::empty(),
            forall|k2: Seq<u8>| #[trigger] final(self).lookup(k2) is None,
    {
        self.entries.clear();
    }

    /// All entries whose key starts with `prefix`, in key order.
    pub fn scan_prefix(&self, prefix: &[u8]) -> (r: Vec<KvEntry>)
        ensures
            r@.map(|_i: int, e: KvEntry| e.pair()) =~= filter_prefix(self.pairs(), prefix@),
    {
        let n: usize = self.entries.len();
        let mut r: Vec<KvEntry> = Vec::new();
        let mut i: usize = 0;
        while i < n
            invariant
                0 <= i <= n,
                n == self.pairs().len(),
                r@.map(|_i: int, e: KvEntry| e.pair()) =~= filter_prefix(
                    self.pairs().subrange(0, i as int),
                    prefix@,
                ),
            decreases n - i,
        {
            let ghost prev = self.pairs().subrange(0, i as int);
            proof {
                assert(self.pairs().subrange(0, i + 1) =~= prev.push(self.pairs()[i as int]));
                lemma_filter_push(prev, self.pairs()[i as int], prefix_pred(prefix@));
            }
            if is_prefix_of(prefix, self.entries[i].key.as_slice()) {
                let e = KvEntry {
                    key: clone_bytes(&self.entries[i].key),
                    value: clone_bytes(&self.entries[i].value),
                };
                proof {
                    assert(e.pair() == self.pairs()[i as int]);
                }
                r.push(e);
            }
            i = i + 1;
        }
        proof {
            assert(self.pairs().subrange(0, n as int) =~= self.pairs());
        }
        r
    }

    /// The greatest key and its value.
    pub fn last_entry(&self) -> (r: Option<(&Vec<u8>, &Vec<u8>)>)
        ensures
            r is Some <==> self.pairs().len() > 0,
            r matches Some(e) ==> e.0@ == self.pairs().last().0 && e.1@ == self.pairs().last().1,
    {
        let n: usize = self.entries.len();
        if n == 0 {
            None
        } else {
            let entry = &self.entries[n - 1];
            Some((&entry.key, &entry.value))
        }
    }
}

/// The predicate "the entry's key starts with `p`".
pub open spec fn prefix_pred(p: Seq<u8>) -> spec_fn((Seq<u8>, Seq<u8>)) -> bool {
    |e: (Seq<u8>, Seq<u8>)| has_prefix(e.0, p)
}

/// The entries of `s` whose key starts with `p`, in order.
pub open spec fn filter_prefix(s: Seq<(Seq<u8>, Seq<u8>)>, p: Seq<u8>) -> Seq<(Seq<u8>, Seq<u8>)> {
    s.filter(prefix_pred(p))
}

/// One unfolding step of `filter` at the back of a sequence.
pub proof fn lemma_filter_push<A>(s: Seq<A>, e: A, pred: spec_fn(A) -> bool)
    ensures
        s.push(e).filter(pred) == if pred(e) {
            s.filter(pred).push(e)
        } else {
            s.filter(pred)
        },
{
    assert(s.push(e).drop_last() =~= s);
    reveal(Seq::filter);
    assert(s.push(e).last() == e);
}

} // verus!
