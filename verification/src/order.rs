//! Putting things in the order of their keys.
use crate::text::{lemma_text_lt_total, lemma_text_lt_transitive, text_before, text_lt, views};
use vstd::prelude::*;

verus! {

/// Whether the thing at `a` comes before the one at `b`: by key, and by position where the keys
/// are the same.
pub open spec fn ranks_before(keys: Seq<Seq<char>>, a: usize, b: usize) -> bool {
    text_lt(keys[a as int], keys[b as int]) || (keys[a as int] == keys[b as int] && a < b)
}

/// Whether `order` names every position of `keys` once, in the order of the keys.
pub open spec fn in_order(keys: Seq<Seq<char>>, order: Seq<usize>) -> bool {
    &&& order.len() == keys.len()
    &&& forall|i: int| 0 <= i < order.len() ==> (#[trigger] order[i]) < keys.len()
    &&& forall|i: int, j: int|
        0 <= i < j < order.len() ==> ranks_before(keys, #[trigger] order[i], #[trigger] order[j])
    &&& forall|k: usize| k < keys.len() ==> #[trigger] order.contains(k)
}

/// A key that comes before another comes before all that do not come before that one.
proof fn lemma_before_all_later(k: Seq<char>, p: Seq<char>, q: Seq<char>)
    requires
        text_lt(k, p),
        !text_lt(q, p),
    ensures
        text_lt(k, q),
{
    if !text_lt(k, q) {
        lemma_text_lt_transitive(p, q, k);
    }
}

/// The positions of `keys` in the order of the keys; equal keys keep their order.
pub fn order_by(keys: &Vec<String>) -> (r: Vec<usize>)
    ensures
        in_order(views(keys@), r@),
{
    let ghost all = views(keys@);
    let mut r: Vec<usize> = Vec::new();
    let mut k: usize = 0;
    while k < keys.len()
        invariant
            all == views(keys@),
            k <= keys@.len(),
            r@.len() == k,
            forall|i: int| 0 <= i < r@.len() ==> (#[trigger] r@[i]) < k,
            forall|i: int, j: int|
                0 <= i < j < r@.len() ==> ranks_before(all, #[trigger] r@[i], #[trigger] r@[j]),
            forall|x: usize| x < k ==> #[trigger] r@.contains(x),
        decreases keys@.len() - k,
    {
        let mut p: usize = 0;
        while p < r.len() && !text_before(keys[k].as_str(), keys[r[p]].as_str())
            invariant
                all == views(keys@),
                k < keys@.len(),
                r@.len() == k,
                p <= r@.len(),
                forall|i: int| 0 <= i < r@.len() ==> (#[trigger] r@[i]) < k,
                forall|i: int| 0 <= i < p ==> !text_lt(all[k as int], all[(#[trigger] r@[i]) as int]),
            decreases r@.len() - p,
        {
            p = p + 1;
        }
        let ghost before = r@;
        proof {
            assert forall|i: int| 0 <= i < p implies ranks_before(all, #[trigger] before[i], k) by {
                lemma_text_lt_total(all[before[i] as int], all[k as int]);
            }
            assert forall|i: int| p <= i < before.len() implies ranks_before(
                all,
                k,
                #[trigger] before[i],
            ) by {
                let first = all[before[p as int] as int];
                let here = all[before[i] as int];
                lemma_text_lt_total(first, here);
                if i > p {
                    assert(ranks_before(all, before[p as int], before[i]));
                }
                lemma_before_all_later(all[k as int], first, here);
            }
        }
        r.insert(p, k);
        proof {
            assert(r@[p as int] == k);
            assert forall|x: usize| x < k + 1 implies #[trigger] r@.contains(x) by {
                if x < k {
                    let i = before.index_of(x);
                    assert(before.contains(x));
                    assert(before[i] == x);
                    if i < p {
                        assert(r@[i] == x);
                    } else {
                        assert(r@[i + 1] == x);
                    }
                }
            }
            assert forall|i: int, j: int| 0 <= i < j < r@.len() implies ranks_before(
                all,
                #[trigger] r@[i],
                #[trigger] r@[j],
            ) by {
                if i < p && j == p {
                    assert(r@[i] == before[i]);
                } else if i == p {
                    assert(r@[j] == before[j - 1]);
                } else {
                    let a = if i < p {
                        i
                    } else {
                        i - 1
                    };
                    let b = if j < p {
                        j
                    } else {
                        j - 1
                    };
                    assert(r@[i] == before[a] && r@[j] == before[b]);
                }
            }
        }
        k = k + 1;
    }
    r
}

/// Whether `order` names every position of `keys` once, in the order of the numbers; equal numbers
/// keep their order.
pub open spec fn in_number_order(keys: Seq<i64>, order: Seq<usize>) -> bool {
    &&& order.len() == keys.len()
    &&& forall|i: int| 0 <= i < order.len() ==> (#[trigger] order[i]) < keys.len()
    &&& forall|i: int, j: int|
        0 <= i < j < order.len() ==> {
            let a = #[trigger] order[i];
            let b = #[trigger] order[j];
            keys[a as int] < keys[b as int] || (keys[a as int] == keys[b as int] && a < b)
        }
    &&& forall|k: usize| k < keys.len() ==> #[trigger] order.contains(k)
}

/// The positions of `keys` in the order of the numbers; equal numbers keep their order.
pub fn order_by_number(keys: &Vec<i64>) -> (r: Vec<usize>)
    ensures
        in_number_order(keys@, r@),
{
    let mut r: Vec<usize> = Vec::new();
    let mut k: usize = 0;
    while k < keys.len()
        invariant
            k <= keys@.len(),
            r@.len() == k,
            forall|i: int| 0 <= i < r@.len() ==> (#[trigger] r@[i]) < k,
            forall|i: int, j: int|
                0 <= i < j < r@.len() ==> {
                    let a = #[trigger] r@[i];
                    let b = #[trigger] r@[j];
                    keys@[a as int] < keys@[b as int] || (keys@[a as int] == keys@[b as int] && a
                        < b)
                },
            forall|x: usize| x < k ==> #[trigger] r@.contains(x),
        decreases keys@.len() - k,
    {
        let mut p: usize = 0;
        while p < r.len() && keys[r[p]] <= keys[k]
            invariant
                k < keys@.len(),
                r@.len() == k,
                p <= r@.len(),
                forall|i: int| 0 <= i < r@.len() ==> (#[trigger] r@[i]) < k,
                forall|i: int| 0 <= i < p ==> keys@[(#[trigger] r@[i]) as int] <= keys@[k as int],
            decreases r@.len() - p,
        {
            p = p + 1;
        }
        let ghost before = r@;
        proof {
            assert forall|i: int| p <= i < before.len() implies keys@[k as int] < keys@[(
            #[trigger] before[i]) as int] by {
                if i > p {
                    let a = before[p as int];
                    let b = before[i];
                    assert(keys@[a as int] <= keys@[b as int]);
                }
            }
        }
        r.insert(p, k);
        proof {
            assert(r@[p as int] == k);
            assert forall|x: usize| x < k + 1 implies #[trigger] r@.contains(x) by {
                if x < k {
                    let i = before.index_of(x);
                    assert(before.contains(x));
                    assert(before[i] == x);
                    if i < p {
                        assert(r@[i] == x);
                    } else {
                        assert(r@[i + 1] == x);
                    }
                }
            }
            assert forall|i: int, j: int| 0 <= i < j < r@.len() implies {
                let a = #[trigger] r@[i];
                let b = #[trigger] r@[j];
                keys@[a as int] < keys@[b as int] || (keys@[a as int] == keys@[b as int] && a < b)
            } by {
                if i < p && j == p {
                    assert(r@[i] == before[i]);
                } else if i == p {
                    assert(r@[j] == before[j - 1]);
                } else {
                    let a = if i < p {
                        i
                    } else {
                        i - 1
                    };
                    let b = if j < p {
                        j
                    } else {
                        j - 1
                    };
                    assert(r@[i] == before[a] && r@[j] == before[b]);
                }
            }
        }
        k = k + 1;
    }
    r
}

} // verus!
