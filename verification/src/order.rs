//! The byte-wise order of byte strings: the order in which text compares
//! as its UTF-8 bytes, a proper prefix first.
use vstd::prelude::*;

verus! {

/// One past the end of the common run of `x` and `y` that starts at `i`.
pub open spec fn shared_prefix(x: Seq<u8>, y: Seq<u8>, i: int) -> int
    decreases x.len() - i,
{
    if 0 <= i < x.len() && i < y.len() && x[i] == y[i] {
        shared_prefix(x, y, i + 1)
    } else {
        i
    }
}

/// Whether `x` orders strictly before `y` byte by byte, a proper prefix
/// first.
pub open spec fn bytes_lt(x: Seq<u8>, y: Seq<u8>) -> bool {
    let k = shared_prefix(x, y, 0);
    if k < x.len() && k < y.len() {
        x[k] < y[k]
    } else {
        x.len() < y.len()
    }
}

/// `shared_prefix` stops at the first position where the two differ or
/// one of them ends.
proof fn lemma_shared_prefix(x: Seq<u8>, y: Seq<u8>, i: int)
    requires
        0 <= i <= x.len(),
        i <= y.len(),
        forall|j: int| 0 <= j < i ==> x[j] == y[j],
    ensures
        i <= shared_prefix(x, y, i) <= x.len(),
        shared_prefix(x, y, i) <= y.len(),
        forall|j: int| 0 <= j < shared_prefix(x, y, i) ==> x[j] == y[j],
        shared_prefix(x, y, i) < x.len() && shared_prefix(x, y, i) < y.len() ==> x[shared_prefix(x, y, i)]
            != y[shared_prefix(x, y, i)],
    decreases x.len() - i,
{
    if i < x.len() && i < y.len() && x[i] == y[i] {
        lemma_shared_prefix(x, y, i + 1);
    }
}

/// The first position where `x` and `y` differ (or one ends) is
/// `shared_prefix(x, y, 0)`.
proof fn lemma_first_difference(x: Seq<u8>, y: Seq<u8>, k: int)
    requires
        0 <= k <= x.len(),
        k <= y.len(),
        forall|j: int| 0 <= j < k ==> x[j] == y[j],
        k < x.len() && k < y.len() ==> x[k] != y[k],
    ensures
        shared_prefix(x, y, 0) == k,
{
    lemma_shared_prefix(x, y, 0);
    let k0 = shared_prefix(x, y, 0);
    if k0 < k {
        assert(x[k0] == y[k0]);
    } else if k < k0 {
        assert(x[k] == y[k]);
    }
}

/// The byte order is a strict total order: irreflexive, asymmetric,
/// transitive, and any two different byte strings are ordered one way.
pub proof fn law_bytes_order(x: Seq<u8>, y: Seq<u8>, z: Seq<u8>)
    ensures
        !bytes_lt(x, x),
        bytes_lt(x, y) ==> !bytes_lt(y, x),
        bytes_lt(x, y) && bytes_lt(y, z) ==> bytes_lt(x, z),
        x != y ==> bytes_lt(x, y) || bytes_lt(y, x),
{
    lemma_shared_prefix(x, x, 0);
    lemma_first_difference(x, x, x.len() as int);
    lemma_shared_prefix(x, y, 0);
    let k = shared_prefix(x, y, 0);
    lemma_first_difference(y, x, k);
    if x != y && k == x.len() && k == y.len() {
        assert(x =~= y);
    }
    if bytes_lt(x, y) && bytes_lt(y, z) {
        lemma_shared_prefix(y, z, 0);
        let k2 = shared_prefix(y, z, 0);
        if k < k2 {
            if k < x.len() {
                lemma_first_difference(x, z, k);
            } else {
                lemma_first_difference(x, z, x.len() as int);
            }
        } else if k2 < k {
            lemma_first_difference(x, z, k2);
        } else {
            if k < x.len() {
                lemma_first_difference(x, z, k);
            } else {
                lemma_first_difference(x, z, x.len() as int);
            }
        }
    }
}

/// Whether `x` orders strictly before `y`, byte by byte.
pub fn bytes_before(x: &Vec<u8>, y: &Vec<u8>) -> (r: bool)
    ensures
        r == bytes_lt(x@, y@),
{
    let mut i: usize = 0;
    while i < x.len() && i < y.len() && x[i] == y[i]
        invariant
            i <= x@.len(),
            i <= y@.len(),
            shared_prefix(x@, y@, 0) == shared_prefix(x@, y@, i as int),
        decreases x.len() - i,
    {
        i = i + 1;
    }
    if i < x.len() && i < y.len() {
        x[i] < y[i]
    } else {
        x.len() < y.len()
    }
}

} // verus!
