//! Lists of entries looked up by a text key: the first entry with the key wins.
use vstd::prelude::*;

verus! {

/// Index of the first occurrence of `k` in `keys`, or -1 when it does not occur.
pub open spec fn first_index_of(keys: Seq<Seq<char>>, k: Seq<char>) -> int
    decreases keys.len(),
{
    if keys.len() == 0 {
        -1
    } else if keys[0] == k {
        0
    } else {
        let r = first_index_of(keys.drop_first(), k);
        if r < 0 {
            -1
        } else {
            r + 1
        }
    }
}

/// The first index of a key is where it first occurs, and -1 means it does not occur.
pub proof fn lemma_first_index_of(keys: Seq<Seq<char>>, k: Seq<char>)
    ensures
        -1 <= first_index_of(keys, k) < keys.len(),
        first_index_of(keys, k) >= 0 ==> keys[first_index_of(keys, k)] == k,
        forall|j: int| 0 <= j < first_index_of(keys, k) ==> keys[j] != k,
        first_index_of(keys, k) < 0 ==> forall|j: int| 0 <= j < keys.len() ==> keys[j] != k,
        first_index_of(keys, k) < 0 <==> !keys.contains(k),
    decreases keys.len(),
{
    if keys.len() > 0 && keys[0] != k {
        lemma_first_index_of(keys.drop_first(), k);
        assert forall|j: int| 0 < j < keys.len() implies keys[j] == keys.drop_first()[j - 1] by {}
    }
    if first_index_of(keys, k) < 0 && keys.contains(k) {
        let j = choose|j: int| 0 <= j < keys.len() && keys[j] == k;
        assert(keys[j] != k);
    }
}

/// A position found by a scan from the front is the first index of the key.
pub proof fn lemma_first_index_at(keys: Seq<Seq<char>>, k: Seq<char>, i: int)
    requires
        0 <= i < keys.len(),
        keys[i] == k,
        forall|j: int| 0 <= j < i ==> keys[j] != k,
    ensures
        first_index_of(keys, k) == i,
{
    lemma_first_index_of(keys, k);
    let f = first_index_of(keys, k);
    if f < 0 {
        assert(keys[i] != k);
    } else if f < i {
        assert(keys[f] != k);
    } else if f > i {
        assert(keys[i] != k);
    }
}

/// A scan of the whole list that finds no key gives -1.
pub proof fn lemma_first_index_absent(keys: Seq<Seq<char>>, k: Seq<char>)
    requires
        forall|j: int| 0 <= j < keys.len() ==> keys[j] != k,
    ensures
        first_index_of(keys, k) == -1,
{
    lemma_first_index_of(keys, k);
    if first_index_of(keys, k) >= 0 {
        assert(keys[first_index_of(keys, k)] != k);
    }
}

} // verus!
