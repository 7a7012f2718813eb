//! How far two vectors of scores agree on what scores best. Scores are
//! single-precision numbers, given by their bits.

use vstd::prelude::*;

verus! {

/// Where a number stands in the total order of single-precision numbers.
pub open spec fn rank(bits: u32) -> int {
    if bits < 0x8000_0000 {
        bits as int
    } else {
        0x7fff_ffff - bits
    }
}

/// Whether the first number stands above the second in the total order.
pub fn stands_above(a: u32, b: u32) -> (above: bool)
    ensures
        above == (rank(a) > rank(b)),
{
    if a < 0x8000_0000 {
        b >= 0x8000_0000 || a > b
    } else {
        b >= 0x8000_0000 && a < b
    }
}

/// Whether `ids` are places of scores, no place twice, best first, and no place
/// left out scores better than one listed. Which of two equal scores comes first
/// is left open.
pub open spec fn lists_the_best(ids: Seq<usize>, scores: Seq<u32>) -> bool {
    &&& forall|i: int| 0 <= i < ids.len() ==> (#[trigger] ids[i]) < scores.len()
    &&& forall|i: int, j: int|
        0 <= i < j < ids.len() ==> #[trigger] ids[i] != #[trigger] ids[j] && rank(
            scores[ids[i] as int],
        ) >= rank(scores[ids[j] as int])
    &&& forall|i: int, k: int|
        #![trigger ids[i], scores[k]]
        0 <= i < ids.len() && 0 <= k < scores.len() && !ids.contains(k as usize) ==> rank(
            scores[ids[i] as int],
        ) >= rank(scores[k])
}

/// Whether a list of places holds a place.
pub fn holds(ids: &[usize], id: usize) -> (found: bool)
    ensures
        found == ids@.contains(id),
{
    let n: usize = ids.len();
    let mut i: usize = 0;
    while i < n
        invariant
            i <= n,
            n == ids@.len(),
            forall|k: int| 0 <= k < i ==> #[trigger] ids@[k] != id,
        decreases n - i,
    {
        if ids[i] == id {
            proof {
                assert(ids@[i as int] == id);
            }
            return true;
        }
        i += 1;
    }
    false
}

/// The best place that is not listed yet.
fn best_left(scores: &[u32], ids: &[usize]) -> (best: Option<usize>)
    ensures
        match best {
            Some(best) => {
                &&& best < scores@.len()
                &&& !ids@.contains(best)
                &&& forall|k: int|
                    0 <= k < scores@.len() && !ids@.contains(k as usize) ==> rank(
                        scores@[best as int],
                    ) >= rank(#[trigger] scores@[k])
            },
            None => forall|k: int|
                0 <= k < scores@.len() ==> ids@.contains(#[trigger] (k as usize)),
        },
{
    let n: usize = scores.len();
    let mut best: Option<usize> = None;
    let mut i: usize = 0;
    while i < n
        invariant
            i <= n,
            n == scores@.len(),
            match best {
                Some(best) => {
                    &&& best < i
                    &&& !ids@.contains(best)
                    &&& forall|k: int|
                        0 <= k < i && !ids@.contains(k as usize) ==> rank(scores@[best as int])
                            >= rank(#[trigger] scores@[k])
                },
                None => forall|k: int| 0 <= k < i ==> ids@.contains(#[trigger] (k as usize)),
            },
        decreases n - i,
    {
        if !holds(ids, i) {
            let better: bool = match best {
                Some(best) => stands_above(scores[i], scores[best]),
                None => true,
            };
            if better {
                best = Some(i);
            }
        }
        i += 1;
    }
    best
}

/// The places of the `n` best scores, best first; all of them where there are
/// fewer.
pub fn top_n(scores: &[u32], n: usize) -> (ids: Vec<usize>)
    ensures
        ids@.len() == if n <= scores@.len() {
            n as nat
        } else {
            scores@.len()
        },
        lists_the_best(ids@, scores@),
{
    let total: usize = scores.len();
    let count: usize = if n <= total {
        n
    } else {
        total
    };
    let mut ids: Vec<usize> = Vec::new();
    while ids.len() < count
        invariant
            total == scores@.len(),
            count <= total,
            ids@.len() <= count,
            lists_the_best(ids@, scores@),
        decreases count - ids@.len(),
    {
        let ghost before = ids@;
        match best_left(scores, ids.as_slice()) {
            Some(best) => {
                ids.push(best);
                proof {
                    lemma_extended(before, best, scores@);
                }
            },
            None => {
                proof {
                    lemma_not_all(before, scores@.len());
                    let k = choose|k: int|
                        0 <= k < scores@.len() && !before.contains(#[trigger] (k as usize));
                    assert(before.contains(k as usize));
                }
                return ids;
            },
        }
    }
    ids
}

/// Appending the best place left keeps a list of the best.
proof fn lemma_extended(before: Seq<usize>, best: usize, scores: Seq<u32>)
    requires
        lists_the_best(before, scores),
        best < scores.len(),
        !before.contains(best),
        forall|k: int|
            0 <= k < scores.len() && !before.contains(k as usize) ==> rank(scores[best as int])
                >= rank(#[trigger] scores[k]),
    ensures
        lists_the_best(before.push(best), scores),
{
    let after = before.push(best);
    let last = before.len() as int;
    assert forall|i: int, j: int| 0 <= i < j < after.len() implies #[trigger] after[i]
        != #[trigger] after[j] && rank(scores[after[i] as int]) >= rank(scores[after[j] as int]) by {
        assert(after[i] == before[i]);
        if j < last {
            assert(after[j] == before[j]);
        } else {
            assert(rank(scores[before[i] as int]) >= rank(scores[best as int]));
        }
    }
    assert forall|i: int, k: int|
        #![trigger after[i], scores[k]]
        0 <= i < after.len() && 0 <= k < scores.len() && !after.contains(k as usize) implies rank(
        scores[after[i] as int],
    ) >= rank(scores[k]) by {
        if before.contains(k as usize) {
            let at = before.index_of(k as usize);
            assert(after[at] == k as usize);
        }
        if i < last {
            assert(after[i] == before[i]);
        }
    }
}

/// A list of fewer places than there are leaves one out.
proof fn lemma_not_all(ids: Seq<usize>, n: nat)
    requires
        ids.len() < n <= usize::MAX,
    ensures
        exists|k: int| 0 <= k < n && !ids.contains(#[trigger] (k as usize)),
{
    if forall|k: int| 0 <= k < n ==> ids.contains(#[trigger] (k as usize)) {
        let places = Seq::new(n, |k: int| k as usize);
        assert(places.no_duplicates());
        places.unique_seq_to_set();
        assert(places.to_set().subset_of(ids.to_set())) by {
            assert forall|p: usize| places.to_set().contains(p) implies ids.to_set().contains(p) by {
                let k = places.index_of(p);
                assert(places[k] == k as usize);
                assert(ids.contains(k as usize));
            }
        }
        ids.lemma_cardinality_of_set();
        vstd::set_lib::lemma_len_subset(places.to_set(), ids.to_set());
    }
}

/// How many of the first `n` places of one list another holds.
pub open spec fn shared(a: Seq<usize>, b: Seq<usize>, n: int) -> int
    decreases n,
{
    if n <= 0 {
        0
    } else if b.contains(a[n - 1]) {
        shared(a, b, n - 1) + 1
    } else {
        shared(a, b, n - 1)
    }
}

/// How many places two lists share.
pub fn overlap(a: &[usize], b: &[usize]) -> (count: usize)
    ensures
        count == shared(a@, b@, a@.len() as int),
{
    let n: usize = a.len();
    let mut count: usize = 0;
    let mut i: usize = 0;
    while i < n
        invariant
            i <= n,
            n == a@.len(),
            count == shared(a@, b@, i as int),
            count <= i,
        decreases n - i,
    {
        if holds(b, a[i]) {
            count += 1;
        }
        i += 1;
    }
    count
}

/// How far two lists of best places agree.
#[derive(Debug, Clone, Copy, PartialEq, Eq, Structural)]
pub struct Agreement {
    pub elements: usize,
    pub top_1_agreement: bool,
    pub top_n_overlap: usize,
}

/// Two vectors of scores have different lengths.
#[derive(Debug, Clone, Copy, PartialEq, Eq, Structural)]
pub struct LengthMismatch {
    pub reference: usize,
    pub produced: usize,
}

/// Whether two lists start with the same place, or both hold none.
pub open spec fn same_first(a: Seq<usize>, b: Seq<usize>) -> bool {
    if a.len() == 0 || b.len() == 0 {
        a.len() == b.len()
    } else {
        a[0] == b[0]
    }
}

/// How far two lists of the best places agree.
pub fn agreement(elements: usize, actual: &[usize], reference: &[usize]) -> (agreement: Agreement)
    ensures
        agreement == (Agreement {
            elements,
            top_1_agreement: same_first(actual@, reference@),
            top_n_overlap: shared(actual@, reference@, actual@.len() as int) as usize,
        }),
{
    let top_1_agreement: bool = if actual.len() == 0 || reference.len() == 0 {
        actual.len() == reference.len()
    } else {
        actual[0] == reference[0]
    };
    Agreement { elements, top_1_agreement, top_n_overlap: overlap(actual, reference) }
}

/// Whether an agreement is that of the best places of two vectors of scores,
/// however equal scores were ordered.
pub open spec fn is_agreement(
    found: Agreement,
    actual: Seq<u32>,
    reference: Seq<u32>,
    n: usize,
) -> bool {
    exists|a: Seq<usize>, b: Seq<usize>|
        {
            &&& #[trigger] lists_the_best(a, actual)
            &&& #[trigger] lists_the_best(b, reference)
            &&& a.len() == b.len()
            &&& a.len() == if n <= actual.len() {
                n as nat
            } else {
                actual.len()
            }
            &&& found.elements == actual.len()
            &&& found.top_1_agreement == same_first(a, b)
            &&& found.top_n_overlap == shared(a, b, a.len() as int)
        }
}

/// How far two vectors of scores agree on what scores best.
pub fn compare(actual: &[u32], reference: &[u32], n: usize) -> (result: Result<
    Agreement,
    LengthMismatch,
>)
    ensures
        match result {
            Ok(found) => actual@.len() == reference@.len() && is_agreement(
                found,
                actual@,
                reference@,
                n,
            ),
            Err(error) => actual@.len() != reference@.len() && error == (LengthMismatch {
                reference: reference@.len() as usize,
                produced: actual@.len() as usize,
            }),
        },
{
    if actual.len() != reference.len() {
        return Err(LengthMismatch { reference: reference.len(), produced: actual.len() });
    }
    let actual_top: Vec<usize> = top_n(actual, n);
    let reference_top: Vec<usize> = top_n(reference, n);
    let found: Agreement = agreement(
        actual.len(),
        actual_top.as_slice(),
        reference_top.as_slice(),
    );
    proof {
        lemma_shared_bound(actual_top@, reference_top@, actual_top@.len() as int);
        assert(actual_top.len() == actual_top@.len());
        assert(lists_the_best(actual_top@, actual@));
        assert(lists_the_best(reference_top@, reference@));
        assert(is_agreement(found, actual@, reference@, n));
    }
    Ok(found)
}

/// Lists share at most as many places as one of them holds.
proof fn lemma_shared_bound(a: Seq<usize>, b: Seq<usize>, n: int)
    requires
        0 <= n <= a.len(),
    ensures
        0 <= shared(a, b, n) <= n,
    decreases n,
{
    if n > 0 {
        lemma_shared_bound(a, b, n - 1);
    }
}

/// The bits of single-precision numbers are ranked as the numbers are: those with
/// the sign bit below all others; among these, larger bits below smaller ones, and
/// among the others above.
pub proof fn bits_rank_as_numbers(a: u32, b: u32)
    ensures
        a < 0x8000_0000 && b >= 0x8000_0000 ==> rank(a) > rank(b),
        a < b < 0x8000_0000 ==> rank(a) < rank(b),
        0x8000_0000 <= a < b ==> rank(a) > rank(b),
        rank(a) == rank(b) ==> a == b,
{
}

/// No place that is left out of the best, and none that is listed later, scores
/// better than one that is listed.
pub proof fn a_listed_place_is_among_the_best(ids: Seq<usize>, scores: Seq<u32>, i: int, k: int)
    requires
        lists_the_best(ids, scores),
        0 <= i < ids.len(),
        0 <= k < scores.len() <= usize::MAX,
        forall|j: int| 0 <= j < i ==> #[trigger] ids[j] != k,
    ensures
        rank(scores[k]) <= rank(scores[ids[i] as int]),
{
    if ids.contains(k as usize) {
        let j = choose|j: int| 0 <= j < ids.len() && ids[j] == k as usize;
        assert(ids[j] == k);
        assert(ids[i] == ids[i]);
    } else {
        assert(scores[k] == scores[k] && ids[i] == ids[i]);
    }
}

/// Lists that share every place share as many as they are long, and lists that
/// share none share nothing.
pub proof fn shared_places_are_counted(a: Seq<usize>, b: Seq<usize>, n: int)
    requires
        0 <= n <= a.len(),
    ensures
        0 <= shared(a, b, n) <= n,
        (forall|i: int| 0 <= i < n ==> b.contains(#[trigger] a[i])) <==> shared(a, b, n) == n,
        (forall|i: int| 0 <= i < n ==> !b.contains(#[trigger] a[i])) <==> shared(a, b, n) == 0,
    decreases n,
{
    if n > 0 {
        shared_places_are_counted(a, b, n - 1);
        if b.contains(a[n - 1]) {
            assert(!(forall|i: int| 0 <= i < n ==> !b.contains(#[trigger] a[i])));
        }
    }
}

} // verus!
