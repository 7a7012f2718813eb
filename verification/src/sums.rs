//! Sums and maxima taken number by number: what the kernels are said to compute.

use crate::arithmetic::Arithmetic;
use vstd::prelude::*;

verus! {

/// A first number, and others added to it one after the other.
pub open spec fn running_total<T, A: Arithmetic<T>>(math: A, first: T, others: Seq<T>) -> T
    decreases others.len(),
{
    if others.len() == 0 {
        first
    } else {
        math.sum(running_total(math, first, others.drop_last()), others.last())
    }
}

/// The largest of numbers, compared one after the other from the lowest on.
pub open spec fn running_peak<T, A: Arithmetic<T>>(math: A, numbers: Seq<T>) -> T
    decreases numbers.len(),
{
    if numbers.len() == 0 {
        math.lowest_of()
    } else {
        math.larger(running_peak(math, numbers.drop_last()), numbers.last())
    }
}

/// The sum of the first `n` integers that a function gives.
pub open spec fn sum_to(f: spec_fn(int) -> int, n: int) -> int
    decreases n,
{
    if n <= 0 {
        0
    } else {
        sum_to(f, n - 1) + f(n - 1)
    }
}

/// Functions that agree have the same sum.
pub proof fn lemma_sums_agree(f: spec_fn(int) -> int, g: spec_fn(int) -> int, n: int)
    requires
        forall|i: int| 0 <= i < n ==> #[trigger] f(i) == g(i),
    ensures
        sum_to(f, n) == sum_to(g, n),
    decreases n,
{
    if n > 0 {
        lemma_sums_agree(f, g, n - 1);
        assert(f(n - 1) == g(n - 1));
    }
}

/// Whether an arithmetic computes with integers without rounding, where `value`
/// is the integer that a number stands for.
pub open spec fn is_exact<T, A: Arithmetic<T>>(math: A, value: spec_fn(T) -> int) -> bool {
    &&& value(math.zero_of()) == 0
    &&& value(math.empty_of()) == 0
    &&& forall|a: T, b: T| value(#[trigger] math.sum(a, b)) == value(a) + value(b)
    &&& forall|a: T, b: T| value(#[trigger] math.difference(a, b)) == value(a) - value(b)
    &&& forall|a: T, b: T| value(#[trigger] math.product(a, b)) == value(a) * value(b)
    &&& forall|a: T| value(#[trigger] math.negative(a)) == -value(a)
    &&& forall|n: int| value(#[trigger] math.integer_of(n)) == n
    &&& forall|a: T, b: T, c: T|
        value(#[trigger] math.fused(a, b, c)) == value(a) * value(b) + value(c)
}

} // verus!
