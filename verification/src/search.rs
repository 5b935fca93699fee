//! First and last positions at which a condition holds.
use vstd::prelude::*;

verus! {

/// The first index at which `bs` is true.
pub open spec fn first_true(bs: Seq<bool>) -> Option<int>
    decreases bs.len(),
{
    if bs.len() == 0 {
        None
    } else if bs[0] {
        Some(0)
    } else {
        match first_true(bs.drop_first()) {
            Some(i) => Some(i + 1),
            None => None,
        }
    }
}

/// The last index at which `bs` is true.
pub open spec fn last_true(bs: Seq<bool>) -> Option<int>
    decreases bs.len(),
{
    if bs.len() == 0 {
        None
    } else if bs.last() {
        Some(bs.len() - 1)
    } else {
        last_true(bs.drop_last())
    }
}

pub proof fn lemma_first_true(bs: Seq<bool>)
    ensures
        match first_true(bs) {
            Some(i) => 0 <= i < bs.len() && bs[i] && forall|k: int| 0 <= k < i ==> !bs[k],
            None => forall|k: int| 0 <= k < bs.len() ==> !bs[k],
        },
    decreases bs.len(),
{
    if bs.len() > 0 && !bs[0] {
        let t = bs.drop_first();
        lemma_first_true(t);
        assert forall|k: int| 1 <= k < bs.len() implies bs[k] == t[k - 1] by {}
        match first_true(t) {
            Some(i) => {
                assert forall|k: int| 0 <= k < i + 1 implies !bs[k] by {
                    if k > 0 {
                        assert(bs[k] == t[k - 1]);
                    }
                }
            },
            None => {
                assert forall|k: int| 0 <= k < bs.len() implies !bs[k] by {
                    if k > 0 {
                        assert(bs[k] == t[k - 1]);
                    }
                }
            },
        }
    }
}

/// The first true index is the one before which every value is false.
pub proof fn lemma_first_true_at(bs: Seq<bool>, i: int)
    requires
        0 <= i < bs.len(),
        bs[i],
        forall|k: int| 0 <= k < i ==> !bs[k],
    ensures
        first_true(bs) == Some(i),
{
    lemma_first_true(bs);
    match first_true(bs) {
        Some(j) => {
            if j < i {
                assert(!bs[j]);
            }
            if i < j {
                assert(!bs[i]);
            }
        },
        None => {
            assert(!bs[i]);
        },
    }
}

pub proof fn lemma_first_true_none(bs: Seq<bool>)
    requires
        forall|k: int| 0 <= k < bs.len() ==> !bs[k],
    ensures
        first_true(bs) is None,
{
    lemma_first_true(bs);
    if let Some(j) = first_true(bs) {
        assert(!bs[j]);
    }
}

pub proof fn lemma_last_true(bs: Seq<bool>)
    ensures
        match last_true(bs) {
            Some(i) => 0 <= i < bs.len() && bs[i] && forall|k: int| i < k < bs.len() ==> !bs[k],
            None => forall|k: int| 0 <= k < bs.len() ==> !bs[k],
        },
    decreases bs.len(),
{
    if bs.len() > 0 && !bs.last() {
        let t = bs.drop_last();
        lemma_last_true(t);
        assert forall|k: int| 0 <= k < t.len() implies bs[k] == t[k] by {}
    }
}

/// The last true index is the one after which every value is false.
pub proof fn lemma_last_true_at(bs: Seq<bool>, i: int)
    requires
        0 <= i < bs.len(),
        bs[i],
        forall|k: int| i < k < bs.len() ==> !bs[k],
    ensures
        last_true(bs) == Some(i),
{
    lemma_last_true(bs);
    match last_true(bs) {
        Some(j) => {
            if j < i {
                assert(!bs[i]);
            }
            if i < j {
                assert(!bs[j]);
            }
        },
        None => {
            assert(!bs[i]);
        },
    }
}

pub proof fn lemma_last_true_none(bs: Seq<bool>)
    requires
        forall|k: int| 0 <= k < bs.len() ==> !bs[k],
    ensures
        last_true(bs) is None,
{
    lemma_last_true(bs);
    if let Some(j) = last_true(bs) {
        assert(!bs[j]);
    }
}

} // verus!
