use vstd::prelude::*;

verus! {

/// The position of the last occurrence of `k` in `ks`, or `-1` when it does not occur.
pub open spec fn pos_of<K>(ks: Seq<K>, k: K) -> int
    decreases ks.len(),
{
    if ks.len() == 0 {
        -1
    } else if ks.last() == k {
        ks.len() - 1
    } else {
        pos_of(ks.drop_last(), k)
    }
}

/// No value occurs twice in `ks`.
pub open spec fn distinct<K>(ks: Seq<K>) -> bool {
    forall|i: int, j: int| 0 <= i < j < ks.len() ==> ks[i] != ks[j]
}

pub proof fn lemma_pos_of<K>(ks: Seq<K>, k: K)
    ensures
        -1 <= pos_of(ks, k) < ks.len(),
        pos_of(ks, k) >= 0 ==> ks[pos_of(ks, k)] == k,
        pos_of(ks, k) == -1 <==> !ks.contains(k),
        forall|j: int| pos_of(ks, k) < j < ks.len() ==> ks[j] != k,
    decreases ks.len(),
{
    if ks.len() > 0 && ks.last() != k {
        lemma_pos_of(ks.drop_last(), k);
        if ks.contains(k) {
            let j = choose|j: int| 0 <= j < ks.len() && ks[j] == k;
            assert(ks.drop_last()[j] == k);
        }
        if ks.drop_last().contains(k) {
            let j = choose|j: int| 0 <= j < ks.drop_last().len() && ks.drop_last()[j] == k;
            assert(ks[j] == k);
        }
        assert forall|j: int| pos_of(ks, k) < j < ks.len() implies ks[j] != k by {
            if j < ks.len() - 1 {
                assert(ks.drop_last()[j] == ks[j]);
            }
        }
    }
}

/// The position is fixed by the occurrence of `k` at `j` and none after it.
pub proof fn lemma_pos_at<K>(ks: Seq<K>, k: K, j: int)
    requires
        -1 <= j < ks.len(),
        j >= 0 ==> ks[j] == k,
        forall|x: int| j < x < ks.len() ==> ks[x] != k,
    ensures
        pos_of(ks, k) == j,
    decreases ks.len(),
{
    if ks.len() > 0 && j < ks.len() - 1 {
        lemma_pos_at(ks.drop_last(), k, j);
    }
}

pub proof fn lemma_distinct_push<K>(ks: Seq<K>, k: K)
    requires
        distinct(ks),
        !ks.contains(k),
    ensures
        distinct(ks.push(k)),
{
    assert forall|i: int, j: int| 0 <= i < j < ks.push(k).len() implies ks.push(k)[i] != ks.push(
        k,
    )[j] by {
        if j == ks.len() {
            assert(ks[i] == ks.push(k)[i]);
        }
    }
}

pub proof fn lemma_distinct_remove<K>(ks: Seq<K>, p: int)
    requires
        distinct(ks),
        0 <= p < ks.len(),
    ensures
        distinct(ks.remove(p)),
        !ks.remove(p).contains(ks[p]),
        forall|x: K| x != ks[p] ==> (ks.remove(p).contains(x) <==> ks.contains(x)),
{
    let r = ks.remove(p);
    assert forall|i: int, j: int| 0 <= i < j < r.len() implies r[i] != r[j] by {
        let a = if i < p { i } else { i + 1 };
        let b = if j < p { j } else { j + 1 };
        assert(r[i] == ks[a] && r[j] == ks[b]);
    }
    if r.contains(ks[p]) {
        let i = choose|i: int| 0 <= i < r.len() && r[i] == ks[p];
        let a = if i < p { i } else { i + 1 };
        assert(ks[a] == ks[p]);
    }
    assert forall|x: K| x != ks[p] implies (r.contains(x) <==> ks.contains(x)) by {
        if r.contains(x) {
            let i = choose|i: int| 0 <= i < r.len() && r[i] == x;
            let a = if i < p { i } else { i + 1 };
            assert(ks[a] == x);
        }
        if ks.contains(x) {
            let a = choose|a: int| 0 <= a < ks.len() && ks[a] == x;
            let i = if a < p { a } else { a - 1 };
            assert(r[i] == x);
        }
    }
}

} // verus!
