//! Lexicographic order of strings, by code point (the order of `String`).
use vstd::prelude::*;
use crate::address::BluetoothAddress;
use crate::text::to_chars;

verus! {

/// `a` sorts strictly before `b`: at the first position where they differ
/// `a` has the smaller character, or `a` is a proper prefix of `b`.
pub open spec fn chars_lt(a: Seq<char>, b: Seq<char>) -> bool
    decreases a.len(),
{
    if a.len() == 0 {
        b.len() > 0
    } else if b.len() == 0 {
        false
    } else if a[0] != b[0] {
        a[0] < b[0]
    } else {
        chars_lt(a.drop_first(), b.drop_first())
    }
}

pub proof fn lemma_lt_irreflexive(a: Seq<char>)
    ensures
        !chars_lt(a, a),
    decreases a.len(),
{
    if a.len() > 0 {
        lemma_lt_irreflexive(a.drop_first());
    }
}

pub proof fn lemma_lt_transitive(a: Seq<char>, b: Seq<char>, c: Seq<char>)
    requires
        chars_lt(a, b),
        chars_lt(b, c),
    ensures
        chars_lt(a, c),
    decreases a.len(),
{
    if a.len() > 0 && b.len() > 0 && c.len() > 0 && a[0] == b[0] && b[0] == c[0] {
        lemma_lt_transitive(a.drop_first(), b.drop_first(), c.drop_first());
    }
}

pub proof fn lemma_lt_total(a: Seq<char>, b: Seq<char>)
    ensures
        a == b || chars_lt(a, b) || chars_lt(b, a),
    decreases a.len(),
{
    if a.len() == 0 && b.len() == 0 {
        assert(a =~= b);
    } else if a.len() > 0 && b.len() > 0 && a[0] == b[0] {
        lemma_lt_total(a.drop_first(), b.drop_first());
        if a.drop_first() == b.drop_first() {
            assert(a.drop_first().len() == b.drop_first().len());
            assert(a.len() == b.len());
            assert forall|k: int| 0 <= k < a.len() implies a[k] == b[k] by {
                if k > 0 {
                    assert(a[k] == a.drop_first()[k - 1]);
                    assert(b[k] == b.drop_first()[k - 1]);
                }
            }
            assert(a =~= b);
        }
    }
}

pub proof fn lemma_lt_asymmetric(a: Seq<char>, b: Seq<char>)
    requires
        chars_lt(a, b),
    ensures
        !chars_lt(b, a),
{
    if chars_lt(b, a) {
        lemma_lt_transitive(a, b, a);
        lemma_lt_irreflexive(a);
    }
}

/// Whether `a` sorts strictly before `b`.
pub fn str_lt(a: &str, b: &str) -> (r: bool)
    ensures
        r == chars_lt(a@, b@),
{
    let x = to_chars(a);
    let y = to_chars(b);
    let mut i: usize = 0;
    assert(x@.skip(0) =~= x@);
    assert(y@.skip(0) =~= y@);
    while i < x.len() && i < y.len() && x[i] == y[i]
        invariant
            i <= x@.len(),
            i <= y@.len(),
            chars_lt(x@, y@) == chars_lt(x@.skip(i as int), y@.skip(i as int)),
        decreases x@.len() - i,
    {
        proof {
            let xs = x@.skip(i as int);
            let ys = y@.skip(i as int);
            assert(xs.drop_first() =~= x@.skip(i + 1));
            assert(ys.drop_first() =~= y@.skip(i + 1));
        }
        i = i + 1;
    }
    let xs = Ghost(x@.skip(i as int));
    let ys = Ghost(y@.skip(i as int));
    if i == x.len() {
        i < y.len()
    } else if i == y.len() {
        false
    } else {
        assert(xs@[0] == x@[i as int]);
        assert(ys@[0] == y@[i as int]);
        x[i] < y[i]
    }
}

/// Whether address `a` sorts strictly before address `b`.
pub fn address_lt(a: &BluetoothAddress, b: &BluetoothAddress) -> (r: bool)
    ensures
        r == chars_lt(a@, b@),
{
    str_lt(a.as_str(), b.as_str())
}

/// Strictly increasing: sorted, with no address twice.
pub open spec fn strictly_sorted(s: Seq<Seq<char>>) -> bool {
    forall|i: int, j: int| 0 <= i < j < s.len() ==> chars_lt(#[trigger] s[i], #[trigger] s[j])
}

pub open spec fn address_views(v: Seq<BluetoothAddress>) -> Seq<Seq<char>> {
    v.map_values(|a: BluetoothAddress| a@)
}

/// The addresses, each once, in ascending order.
pub fn unique_addresses(addresses: Vec<BluetoothAddress>) -> (r: Vec<BluetoothAddress>)
    ensures
        strictly_sorted(address_views(r@)),
        address_views(r@).to_set() == address_views(addresses@).to_set(),
{
    let mut r: Vec<BluetoothAddress> = Vec::new();
    let n = addresses.len();
    let mut i: usize = 0;
    while i < n
        invariant
            i <= n,
            n == addresses@.len(),
            strictly_sorted(address_views(r@)),
            address_views(r@).to_set() == address_views(addresses@.take(i as int)).to_set(),
        decreases n - i,
    {
        let x = &addresses[i];
        let ghost xv = x@;
        let ghost rv = address_views(r@);
        let mut p: usize = 0;
        while p < r.len()
            invariant
                p <= r@.len(),
                rv == address_views(r@),
                xv == x@,
                forall|k: int| 0 <= k < p ==> chars_lt(#[trigger] rv[k], xv),
            ensures
                p <= r@.len(),
                forall|k: int| 0 <= k < p ==> chars_lt(#[trigger] rv[k], xv),
                p < r@.len() ==> !chars_lt(rv[p as int], xv),
            decreases r@.len() - p,
        {
            let before = address_lt(&r[p], x);
            assert(rv[p as int] == r@[p as int]@);
            if !before {
                break;
            }
            p = p + 1;
        }
        let ghost prefix_next = address_views(addresses@.take(i + 1));
        assert(prefix_next =~= address_views(addresses@.take(i as int)).push(xv));
        proof {
            address_views(addresses@.take(i as int)).lemma_push_to_set_commute(xv);
        }
        if p < r.len() && r[p] == *x {
            proof {
                assert(rv[p as int] == r@[p as int]@);
                assert(rv.to_set().contains(xv)) by {
                    assert(rv[p as int] == xv);
                }
                assert(prefix_next.to_set() =~= rv.to_set().insert(xv));
            }
        } else {
            proof {
                if p < rv.len() {
                    assert(rv[p as int] == r@[p as int]@);
                    assert(!chars_lt(rv[p as int], xv));
                    lemma_lt_total(rv[p as int], xv);
                }
            }
            r.insert(p, x.clone());
            proof {
                let nv = address_views(r@);
                assert(nv =~= rv.insert(p as int, xv));
                assert forall|a: int, b: int| 0 <= a < b < nv.len() implies chars_lt(
                    #[trigger] nv[a],
                    #[trigger] nv[b],
                ) by {
                    if b < p {
                        assert(nv[a] == rv[a] && nv[b] == rv[b]);
                    } else if b == p {
                        assert(nv[a] == rv[a]);
                    } else if a == p {
                        assert(nv[b] == rv[b - 1]);
                        if b - 1 > p {
                            assert(chars_lt(rv[p as int], rv[b - 1]));
                            lemma_lt_transitive(xv, rv[p as int], rv[b - 1]);
                        }
                    } else if a < p {
                        assert(nv[a] == rv[a] && nv[b] == rv[b - 1]);
                        assert(chars_lt(rv[a], xv));
                        if b - 1 >= p {
                            if b - 1 > p {
                                assert(chars_lt(rv[p as int], rv[b - 1]));
                                lemma_lt_transitive(xv, rv[p as int], rv[b - 1]);
                            }
                            lemma_lt_transitive(rv[a], xv, rv[b - 1]);
                        }
                    } else {
                        assert(nv[a] == rv[a - 1] && nv[b] == rv[b - 1]);
                    }
                }
                assert(nv.to_set() =~= rv.to_set().insert(xv)) by {
                    assert forall|e: Seq<char>| nv.to_set().contains(e) implies rv.to_set().insert(
                        xv,
                    ).contains(e) by {
                        let k = choose|k: int| 0 <= k < nv.len() && nv[k] == e;
                        if k < p {
                            assert(rv[k] == e);
                        } else if k > p {
                            assert(rv[k - 1] == e);
                        }
                    }
                    assert forall|e: Seq<char>| rv.to_set().insert(xv).contains(e) implies nv.to_set().contains(
                        e,
                    ) by {
                        if e == xv {
                            assert(nv[p as int] == xv);
                        } else {
                            let k = choose|k: int| 0 <= k < rv.len() && rv[k] == e;
                            if k < p {
                                assert(nv[k] == e);
                            } else {
                                assert(nv[k + 1] == e);
                            }
                        }
                    }
                }
                assert(prefix_next.to_set() =~= address_views(addresses@.take(i as int)).to_set().insert(xv));
            }
        }
        i = i + 1;
    }
    assert(addresses@.take(n as int) =~= addresses@);
    r
}

} // verus!
