//! Orders of the elements of a list, as lists of their positions.

use crate::text::{lemma_insert_contains, lemma_text_total, lemma_text_transitive, text_in_order, text_le};
use vstd::prelude::*;

verus! {

/// Whether `order` lists the positions below `n`, each once.
pub open spec fn arranges(order: Seq<usize>, n: nat) -> bool {
    &&& order.len() == n
    &&& forall|i: int| 0 <= i < n ==> (#[trigger] order[i]) < n
    &&& forall|i: int, j: int| 0 <= i < j < n ==> #[trigger] order[i] != #[trigger] order[j]
    &&& forall|k: usize| k < n ==> #[trigger] order.contains(k)
}

/// Putting the next position anywhere into an arrangement gives an
/// arrangement of one position more.
proof fn lemma_arranges_insert(order: Seq<usize>, at: int, n: usize)
    requires
        arranges(order, n as nat),
        0 <= at <= order.len(),
        n < usize::MAX,
    ensures
        arranges(order.insert(at, n), (n + 1) as nat),
{
    let after = order.insert(at, n);
    assert forall|i: int| 0 <= i < n + 1 implies (#[trigger] after[i]) < n + 1 by {
        if i < at {
            assert(after[i] == order[i]);
        } else if i > at {
            assert(after[i] == order[i - 1]);
        }
    }
    assert forall|i: int, j: int| 0 <= i < j < n + 1 implies #[trigger] after[i]
        != #[trigger] after[j] by {
        let a = if i < at {
            i
        } else {
            i - 1
        };
        let b = if j < at {
            j
        } else {
            j - 1
        };
        if i != at {
            assert(after[i] == order[a]);
        }
        if j != at {
            assert(after[j] == order[b]);
        }
    }
    assert forall|k: usize| k < n + 1 implies #[trigger] after.contains(k) by {
        lemma_insert_contains(order, at, n, k);
    }
}

/// Whether the texts come in order when they are taken in the given order.
pub open spec fn text_ordered(order: Seq<usize>, names: Seq<Seq<char>>) -> bool {
    forall|i: int, j: int|
        0 <= i < j < order.len() ==> text_le(
            names[#[trigger] order[i] as int],
            names[#[trigger] order[j] as int],
        )
}

/// Whether the keys do not fall when they are taken in the given order.
pub open spec fn key_ordered(order: Seq<usize>, keys: Seq<u64>) -> bool {
    forall|i: int, j: int|
        0 <= i < j < order.len() ==> keys[#[trigger] order[i] as int] <= keys[#[trigger] order[j] as int]
}

/// The positions of texts in the order of the texts; equal ones keep their
/// order.
pub fn order_by_text(list: &Vec<String>) -> (order: Vec<usize>)
    ensures
        arranges(order@, list@.len()),
        text_ordered(order@, crate::text::texts(list@)),
{
    let ghost names = crate::text::texts(list@);
    let mut order: Vec<usize> = Vec::new();
    let mut n: usize = 0;
    while n < list.len()
        invariant
            n <= list@.len(),
            names == crate::text::texts(list@),
            arranges(order@, n as nat),
            text_ordered(order@, names),
        decreases list@.len() - n,
    {
        let ghost before = order@;
        let mut at: usize = n;
        while at > 0 && !text_in_order(list[order[at - 1]].as_str(), list[n].as_str())
            invariant
                n < list@.len(),
                names == crate::text::texts(list@),
                arranges(order@, n as nat),
                text_ordered(order@, names),
                before == order@,
                at <= n,
                forall|j: int|
                    at <= j < n ==> text_le(names[n as int], names[(#[trigger] before[j]) as int]),
            ensures
                at > 0 ==> text_le(names[before[at - 1] as int], names[n as int]),
            decreases at,
        {
            proof {
                lemma_text_total(names[n as int], names[before[at - 1] as int]);
            }
            at -= 1;
        }
        order.insert(at, n);
        proof {
            lemma_arranges_insert(before, at as int, n);
            assert forall|i: int, j: int| 0 <= i < j < order@.len() implies text_le(
                names[#[trigger] order@[i] as int],
                names[#[trigger] order@[j] as int],
            ) by {
                let b = if j < at {
                    j
                } else {
                    j - 1
                };
                if i == at {
                    assert(order@[j] == before[b]);
                } else if j == at {
                    assert(order@[i] == before[i]);
                    if i < at - 1 {
                        lemma_text_transitive(
                            names[before[i] as int],
                            names[before[at - 1] as int],
                            names[n as int],
                        );
                    }
                } else {
                    let a = if i < at {
                        i
                    } else {
                        i - 1
                    };
                    assert(order@[i] == before[a]);
                    assert(order@[j] == before[b]);
                }
            }
        }
        n += 1;
    }
    order
}

/// The positions of keys in the order of the keys; equal ones keep their
/// order.
pub fn order_by_key(keys: &[u64]) -> (order: Vec<usize>)
    ensures
        arranges(order@, keys@.len()),
        key_ordered(order@, keys@),
{
    let mut order: Vec<usize> = Vec::new();
    let mut n: usize = 0;
    while n < keys.len()
        invariant
            n <= keys@.len(),
            arranges(order@, n as nat),
            key_ordered(order@, keys@),
        decreases keys@.len() - n,
    {
        let ghost before = order@;
        let mut at: usize = n;
        while at > 0 && keys[order[at - 1]] > keys[n]
            invariant
                n < keys@.len(),
                arranges(order@, n as nat),
                key_ordered(order@, keys@),
                before == order@,
                at <= n,
                forall|j: int|
                    at <= j < n ==> keys@[n as int] <= keys@[(#[trigger] before[j]) as int],
            ensures
                at > 0 ==> keys@[before[at - 1] as int] <= keys@[n as int],
            decreases at,
        {
            at -= 1;
        }
        order.insert(at, n);
        proof {
            lemma_arranges_insert(before, at as int, n);
            assert forall|i: int, j: int| 0 <= i < j < order@.len() implies keys@[(
            #[trigger] order@[i]) as int] <= keys@[(#[trigger] order@[j]) as int] by {
                let b = if j < at {
                    j
                } else {
                    j - 1
                };
                if i == at {
                    assert(order@[j] == before[b]);
                } else if j == at {
                    assert(order@[i] == before[i]);
                    if i < at - 1 {
                        assert(keys@[before[i] as int] <= keys@[before[at - 1] as int]);
                    }
                } else {
                    let a = if i < at {
                        i
                    } else {
                        i - 1
                    };
                    assert(order@[i] == before[a]);
                    assert(order@[j] == before[b]);
                }
            }
        }
        n += 1;
    }
    order
}

} // verus!
