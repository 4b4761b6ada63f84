//! Lexicographic order on byte strings.
//!
//! The store keeps every column family sorted by this order; the key codec
//! encodes integers big-endian precisely so that this order agrees with
//! numeric order on the encoded fields.

use vstd::prelude::*;

verus! {

/// Strict lexicographic order on byte sequences: `a` comes before `b`.
pub open spec fn lex_lt(a: Seq<u8>, b: Seq<u8>) -> bool
    decreases a.len(),
{
    if b.len() == 0 {
        false
    } else if a.len() == 0 {
        true
    } else if a[0] < b[0] {
        true
    } else if a[0] > b[0] {
        false
    } else {
        lex_lt(a.skip(1), b.skip(1))
    }
}

pub open spec fn lex_le(a: Seq<u8>, b: Seq<u8>) -> bool {
    lex_lt(a, b) || a =~= b
}

/// `a` and `b` agree on the first `i` positions.
pub open spec fn agree_upto(a: Seq<u8>, b: Seq<u8>, i: int) -> bool {
    forall|j: int| 0 <= j < i ==> a[j] == b[j]
}

/// If two sequences agree up to position `i` and differ there, the one with
/// the smaller byte comes first.
pub proof fn lemma_lex_lt_from_index(a: Seq<u8>, b: Seq<u8>, i: int)
    requires
        0 <= i < a.len(),
        i < b.len(),
        agree_upto(a, b, i),
        a[i] < b[i],
    ensures
        lex_lt(a, b),
    decreases i,
{
    if i == 0 {
    } else {
        assert(a[0] == b[0]);
        assert(agree_upto(a.skip(1), b.skip(1), i - 1)) by {
            assert(forall|j: int| 0 <= j < i - 1 ==> a.skip(1)[j] == a[j + 1] && b.skip(1)[j]
                == b[j + 1]);
        }
        lemma_lex_lt_from_index(a.skip(1), b.skip(1), i - 1);
    }
}

/// A strict prefix comes before any of its extensions.
pub proof fn lemma_lex_lt_from_prefix(a: Seq<u8>, b: Seq<u8>)
    requires
        a.len() < b.len(),
        agree_upto(a, b, a.len() as int),
    ensures
        lex_lt(a, b),
    decreases a.len(),
{
    if a.len() == 0 {
    } else {
        assert(a[0] == b[0]);
        assert(agree_upto(a.skip(1), b.skip(1), a.len() - 1)) by {
            assert(forall|j: int| 0 <= j < a.len() - 1 ==> a.skip(1)[j] == a[j + 1] && b.skip(1)[j]
                == b[j + 1]);
        }
        lemma_lex_lt_from_prefix(a.skip(1), b.skip(1));
    }
}

/// The order is total: exactly one of `a < b`, `a == b`, `b < a` holds.
pub proof fn lemma_lex_total(a: Seq<u8>, b: Seq<u8>)
    ensures
        lex_lt(a, b) || lex_lt(b, a) || a =~= b,
        lex_lt(a, b) ==> !lex_lt(b, a),
        lex_lt(a, b) ==> !(a =~= b),
    decreases a.len(),
{
    if a.len() == 0 || b.len() == 0 {
    } else {
        lemma_lex_total(a.skip(1), b.skip(1));
        if a[0] == b[0] {
            if a.skip(1) =~= b.skip(1) {
                assert(a =~= b) by {
                    assert(forall|j: int| 1 <= j < a.len() ==> a[j] == a.skip(1)[j - 1]);
                    assert(forall|j: int| 1 <= j < b.len() ==> b[j] == b.skip(1)[j - 1]);
                }
            }
            if a =~= b {
                assert(a.skip(1) =~= b.skip(1));
            }
        }
    }
}

/// The order is transitive.
pub proof fn lemma_lex_trans(a: Seq<u8>, b: Seq<u8>, c: Seq<u8>)
    requires
        lex_lt(a, b),
        lex_lt(b, c),
    ensures
        lex_lt(a, c),
    decreases a.len(),
{
    if a.len() == 0 {
        if c.len() == 0 {
            assert(b.len() > 0);
        }
    } else {
        assert(b.len() > 0);
        assert(c.len() > 0);
        if a[0] == b[0] && b[0] == c[0] {
            lemma_lex_trans(a.skip(1), b.skip(1), c.skip(1));
        }
    }
}

/// Result of comparing two byte strings.
#[derive(Clone, Copy, PartialEq, Eq, Structural, Debug)]
pub enum ByteOrd {
    Less,
    Equal,
    Greater,
}

/// Compare two byte strings in lexicographic order.
pub fn cmp_bytes(a: &[u8], b: &[u8]) -> (r: ByteOrd)
    ensures
        r == ByteOrd::Less <==> lex_lt(a@, b@),
        r == ByteOrd::Equal <==> a@ =~= b@,
        r == ByteOrd::Greater <==> lex_lt(b@, a@),
{
    proof {
        lemma_lex_total(a@, b@);
    }
    let mut i: usize = 0;
    let alen: usize = a.len();
    let blen: usize = b.len();
    let n: usize = if alen < blen {
        alen
    } else {
        blen
    };
    while i < n
        invariant
            0 <= i <= n,
            n == if a@.len() < b@.len() {
                a@.len()
            } else {
                b@.len()
            },
            agree_upto(a@, b@, i as int),
        decreases n - i,
    {
        let x: u8 = a[i];
        let y: u8 = b[i];
        if x < y {
            proof {
                lemma_lex_lt_from_index(a@, b@, i as int);
                lemma_lex_total(a@, b@);
            }
            return ByteOrd::Less;
        }
        if x > y {
            proof {
                lemma_lex_lt_from_index(b@, a@, i as int);
                lemma_lex_total(a@, b@);
            }
            return ByteOrd::Greater;
        }
        i = i + 1;
    }
    if alen < blen {
        proof {
            lemma_lex_lt_from_prefix(a@, b@);
        }
        ByteOrd::Less
    } else if blen < alen {
        proof {
            lemma_lex_lt_from_prefix(b@, a@);
            lemma_lex_total(a@, b@);
        }
        ByteOrd::Greater
    } else {
        proof {
            assert(a@ =~= b@);
            lemma_lex_total(a@, b@);
        }
        ByteOrd::Equal
    }
}

/// `p` is a prefix of `k`.
pub open spec fn has_prefix(k: Seq<u8>, p: Seq<u8>) -> bool {
    p.len() <= k.len() && k.subrange(0, p.len() as int) =~= p
}

/// Check whether `p` is a prefix of `k`.
pub fn is_prefix_of(p: &[u8], k: &[u8]) -> (r: bool)
    ensures
        r == has_prefix(k@, p@),
{
    let plen: usize = p.len();
    if k.len() < plen {
        return false;
    }
    let mut i: usize = 0;
    while i < plen
        invariant
            0 <= i <= plen,
            plen == p@.len(),
            plen <= k@.len(),
            agree_upto(k@, p@, i as int),
        decreases plen - i,
    {
        if k[i] != p[i] {
            assert(!has_prefix(k@, p@)) by {
                assert(k@.subrange(0, p@.len() as int)[i as int] == k@[i as int]);
            }
            return false;
        }
        i = i + 1;
    }
    assert(k@.subrange(0, p@.len() as int) =~= p@);
    true
}

/// Keys sharing a prefix are contiguous in the order: anything between two
/// keys with prefix `p` also has prefix `p`.
pub proof fn lemma_prefix_interval(a: Seq<u8>, b: Seq<u8>, c: Seq<u8>, p: Seq<u8>)
    requires
        has_prefix(a, p),
        has_prefix(c, p),
        lex_le(a, b),
        lex_le(b, c),
    ensures
        has_prefix(b, p),
    decreases p.len(),
{
    if p.len() == 0 {
        assert(b.subrange(0, 0) =~= p);
    } else {
        assert(a[0] == p[0] && c[0] == p[0]) by {
            assert(a.subrange(0, p.len() as int)[0] == a[0]);
            assert(c.subrange(0, p.len() as int)[0] == c[0]);
        }
        if b =~= a || b =~= c {
            assert(has_prefix(b, p));
        } else {
            assert(lex_lt(a, b) && lex_lt(b, c));
            assert(b.len() > 0);
            // first bytes are squeezed: a[0] <= b[0] <= c[0] == a[0] == p[0]
            assert(!(b[0] < a[0]) && !(c[0] < b[0])) by {
                if b[0] < a[0] {
                    lemma_lex_lt_from_index(b, a, 0);
                    lemma_lex_total(a, b);
                }
                if c[0] < b[0] {
                    lemma_lex_lt_from_index(c, b, 0);
                    lemma_lex_total(b, c);
                }
            }
            assert(b[0] == p[0]);
            let a1 = a.skip(1);
            let b1 = b.skip(1);
            let c1 = c.skip(1);
            let p1 = p.skip(1);
            assert(has_prefix(a1, p1) && has_prefix(c1, p1)) by {
                assert(a1.subrange(0, p1.len() as int) =~= p1) by {
                    assert(forall|j: int|
                        0 <= j < p1.len() ==> #[trigger] a1.subrange(0, p1.len() as int)[j] == a[j
                        + 1]);
                    assert(forall|j: int|
                        0 <= j < p1.len() ==> #[trigger] a.subrange(0, p.len() as int)[j + 1] == a[
                        j + 1]);
                    assert(forall|j: int| 0 <= j < p1.len() ==> #[trigger] p1[j] == p[j + 1]);
                }
                assert(c1.subrange(0, p1.len() as int) =~= p1) by {
                    assert(forall|j: int|
                        0 <= j < p1.len() ==> #[trigger] c1.subrange(0, p1.len() as int)[j] == c[j
                        + 1]);
                    assert(forall|j: int|
                        0 <= j < p1.len() ==> #[trigger] c.subrange(0, p.len() as int)[j + 1] == c[
                        j + 1]);
                    assert(forall|j: int| 0 <= j < p1.len() ==> #[trigger] p1[j] == p[j + 1]);
                }
            }
            assert(lex_lt(a1, b1)) by {
                assert(a[0] == b[0]);
            }
            assert(lex_lt(b1, c1)) by {
                assert(b[0] == c[0]);
            }
            lemma_prefix_interval(a1, b1, c1, p1);
            assert(has_prefix(b, p)) by {
                assert(b1.subrange(0, p1.len() as int) =~= p1);
                assert(forall|j: int|
                    1 <= j < p.len() ==> #[trigger] b.subrange(0, p.len() as int)[j] == b[j]);
                assert(forall|j: int|
                    0 <= j < p1.len() ==> #[trigger] b1.subrange(0, p1.len() as int)[j] == b[j
                    + 1]);
                assert(forall|j: int| 1 <= j < p.len() ==> #[trigger] b[j] == p1[j - 1]);
                assert(b.subrange(0, p.len() as int) =~= p);
            }
        }
    }
}

} // verus!
