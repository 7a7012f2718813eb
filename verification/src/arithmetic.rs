//! The arithmetic that the kernels are written in.
//!
//! Floating-point addition is not associative, so a kernel's result depends on
//! the order of its operations. The kernels here are written over an arithmetic
//! of which nothing is assumed but that each operation is a function of its
//! operands: what is proved of them is which operations are applied to which
//! operands in which order, and so the result to the last bit.

use vstd::prelude::*;

verus! {

/// Numbers of type `T` and the operations on them.
pub trait Arithmetic<T> {
    /// The number zero.
    open spec fn zero_of(&self) -> T {
        arbitrary()
    }

    /// What a sum of no numbers is.
    open spec fn empty_of(&self) -> T {
        arbitrary()
    }

    /// The number one.
    open spec fn one_of(&self) -> T {
        arbitrary()
    }

    /// A number that is not above any other.
    open spec fn lowest_of(&self) -> T {
        arbitrary()
    }

    /// A count as a number.
    open spec fn count_of(&self, n: nat) -> T {
        arbitrary()
    }

    /// Whether the first number is above the second.
    open spec fn is_above(&self, a: T, b: T) -> bool {
        arbitrary()
    }

    /// The opposite of a number.
    open spec fn negative(&self, a: T) -> T {
        arbitrary()
    }

    /// The exponential of a number.
    open spec fn exponential(&self, a: T) -> T {
        arbitrary()
    }

    /// The logarithm of one more than a number.
    open spec fn log_plus_one(&self, a: T) -> T {
        arbitrary()
    }

    /// The square root of a number.
    open spec fn root(&self, a: T) -> T {
        arbitrary()
    }

    /// One over a number.
    open spec fn inverse(&self, a: T) -> T {
        arbitrary()
    }

    /// The sum of two numbers.
    open spec fn sum(&self, a: T, b: T) -> T {
        arbitrary()
    }

    /// The first number less the second.
    open spec fn difference(&self, a: T, b: T) -> T {
        arbitrary()
    }

    /// The product of two numbers.
    open spec fn product(&self, a: T, b: T) -> T {
        arbitrary()
    }

    /// The first number over the second.
    open spec fn quotient(&self, a: T, b: T) -> T {
        arbitrary()
    }

    /// The larger of two numbers.
    open spec fn larger(&self, a: T, b: T) -> T {
        arbitrary()
    }

    /// An integer as a number.
    open spec fn integer_of(&self, n: int) -> T {
        arbitrary()
    }

    /// The number that the bits of a half-precision number stand for.
    open spec fn half_of(&self, bits: u16) -> T {
        arbitrary()
    }

    /// The number that the bits of a single-precision number stand for.
    open spec fn single_of(&self, bits: u32) -> T {
        arbitrary()
    }

    /// The product of two numbers and a third one added, rounded once.
    open spec fn fused(&self, a: T, b: T, c: T) -> T {
        arbitrary()
    }

    /// The number zero.
    fn zero(&self) -> (r: T)
        ensures
            r == self.zero_of(),
    ;

    /// What a sum of no numbers is.
    fn empty_sum(&self) -> (r: T)
        ensures
            r == self.empty_of(),
    ;

    /// The number one.
    fn one(&self) -> (r: T)
        ensures
            r == self.one_of(),
    ;

    /// A number that is not above any other.
    fn lowest(&self) -> (r: T)
        ensures
            r == self.lowest_of(),
    ;

    /// A count as a number.
    fn count(&self, n: usize) -> (r: T)
        ensures
            r == self.count_of(n as nat),
    ;

    /// Whether the first number is above the second.
    fn above(&self, a: T, b: T) -> (r: bool)
        ensures
            r == self.is_above(a, b),
    ;

    /// An integer as a number.
    fn integer(&self, n: i32) -> (r: T)
        ensures
            r == self.integer_of(n as int),
    ;

    /// The number that the bits of a half-precision number stand for.
    fn half(&self, bits: u16) -> (r: T)
        ensures
            r == self.half_of(bits),
    ;

    /// The number that the bits of a single-precision number stand for.
    fn single(&self, bits: u32) -> (r: T)
        ensures
            r == self.single_of(bits),
    ;

    /// The product of two numbers and a third one added, rounded once.
    fn mul_add(&self, a: T, b: T, c: T) -> (r: T)
        ensures
            r == self.fused(a, b, c),
    ;

    /// The opposite of a number.
    fn neg(&self, a: T) -> (r: T)
        ensures
            r == self.negative(a),
    ;

    /// The exponential of a number.
    fn exp(&self, a: T) -> (r: T)
        ensures
            r == self.exponential(a),
    ;

    /// The logarithm of one more than a number.
    fn ln_1p(&self, a: T) -> (r: T)
        ensures
            r == self.log_plus_one(a),
    ;

    /// The square root of a number.
    fn sqrt(&self, a: T) -> (r: T)
        ensures
            r == self.root(a),
    ;

    /// One over a number.
    fn recip(&self, a: T) -> (r: T)
        ensures
            r == self.inverse(a),
    ;

    /// The sum of two numbers.
    fn plus(&self, a: T, b: T) -> (r: T)
        ensures
            r == self.sum(a, b),
    ;

    /// The first number less the second.
    fn minus(&self, a: T, b: T) -> (r: T)
        ensures
            r == self.difference(a, b),
    ;

    /// The product of two numbers.
    fn times(&self, a: T, b: T) -> (r: T)
        ensures
            r == self.product(a, b),
    ;

    /// The first number over the second.
    fn over(&self, a: T, b: T) -> (r: T)
        ensures
            r == self.quotient(a, b),
    ;

    /// The larger of two numbers.
    fn max(&self, a: T, b: T) -> (r: T)
        ensures
            r == self.larger(a, b),
    ;
}

/// An arithmetic whose numbers are fingerprints of how they were computed: two
/// computations that apply the same operations to the same operands in the same
/// order give the same number, and any others differ but for collisions.
#[derive(Debug, Clone, Copy, PartialEq, Eq)]
pub struct Fingerprints;

/// One number mixed into a fingerprint.
pub open spec fn mixed(state: u64, a: u64) -> u64 {
    (state ^ a).wrapping_mul(0x0000_0100_0000_01b3)
}

/// The fingerprint of an operation on two operands.
pub open spec fn fingerprint(operation: u64, a: u64, b: u64) -> u64 {
    mixed(mixed(mixed(0xcbf2_9ce4_8422_2325, operation), a), b)
}

/// The fingerprint of an operation on two operands.
fn fingerprinted(operation: u64, a: u64, b: u64) -> (r: u64)
    ensures
        r == fingerprint(operation, a, b),
{
    let first: u64 = (0xcbf2_9ce4_8422_2325u64 ^ operation).wrapping_mul(0x0000_0100_0000_01b3);
    let second: u64 = (first ^ a).wrapping_mul(0x0000_0100_0000_01b3);
    (second ^ b).wrapping_mul(0x0000_0100_0000_01b3)
}

impl Arithmetic<u64> for Fingerprints {
    open spec fn zero_of(&self) -> u64 {
        fingerprint(1, 0, 0)
    }

    open spec fn empty_of(&self) -> u64 {
        fingerprint(2, 0, 0)
    }

    open spec fn one_of(&self) -> u64 {
        fingerprint(3, 0, 0)
    }

    open spec fn lowest_of(&self) -> u64 {
        fingerprint(4, 0, 0)
    }

    open spec fn count_of(&self, n: nat) -> u64 {
        fingerprint(5, n as u64, 0)
    }

    open spec fn is_above(&self, a: u64, b: u64) -> bool {
        a > b
    }

    open spec fn negative(&self, a: u64) -> u64 {
        fingerprint(6, a, 0)
    }

    open spec fn exponential(&self, a: u64) -> u64 {
        fingerprint(7, a, 0)
    }

    open spec fn log_plus_one(&self, a: u64) -> u64 {
        fingerprint(8, a, 0)
    }

    open spec fn root(&self, a: u64) -> u64 {
        fingerprint(9, a, 0)
    }

    open spec fn inverse(&self, a: u64) -> u64 {
        fingerprint(10, a, 0)
    }

    open spec fn sum(&self, a: u64, b: u64) -> u64 {
        fingerprint(11, a, b)
    }

    open spec fn difference(&self, a: u64, b: u64) -> u64 {
        fingerprint(12, a, b)
    }

    open spec fn product(&self, a: u64, b: u64) -> u64 {
        fingerprint(13, a, b)
    }

    open spec fn quotient(&self, a: u64, b: u64) -> u64 {
        fingerprint(14, a, b)
    }

    open spec fn larger(&self, a: u64, b: u64) -> u64 {
        fingerprint(15, a, b)
    }

    open spec fn integer_of(&self, n: int) -> u64 {
        fingerprint(16, (n + 0x8000_0000) as u64, 0)
    }

    open spec fn half_of(&self, bits: u16) -> u64 {
        fingerprint(17, bits as u64, 0)
    }

    open spec fn single_of(&self, bits: u32) -> u64 {
        fingerprint(18, bits as u64, 0)
    }

    open spec fn fused(&self, a: u64, b: u64, c: u64) -> u64 {
        mixed(fingerprint(19, a, b), c)
    }

    fn zero(&self) -> (r: u64) {
        fingerprinted(1, 0, 0)
    }

    fn empty_sum(&self) -> (r: u64) {
        fingerprinted(2, 0, 0)
    }

    fn one(&self) -> (r: u64) {
        fingerprinted(3, 0, 0)
    }

    fn lowest(&self) -> (r: u64) {
        fingerprinted(4, 0, 0)
    }

    fn count(&self, n: usize) -> (r: u64) {
        fingerprinted(5, n as u64, 0)
    }

    fn above(&self, a: u64, b: u64) -> (r: bool) {
        a > b
    }

    fn integer(&self, n: i32) -> (r: u64) {
        fingerprinted(16, (n as i64 + 0x8000_0000) as u64, 0)
    }

    fn half(&self, bits: u16) -> (r: u64) {
        fingerprinted(17, bits as u64, 0)
    }

    fn single(&self, bits: u32) -> (r: u64) {
        fingerprinted(18, bits as u64, 0)
    }

    fn mul_add(&self, a: u64, b: u64, c: u64) -> (r: u64) {
        (fingerprinted(19, a, b) ^ c).wrapping_mul(0x0000_0100_0000_01b3)
    }

    fn neg(&self, a: u64) -> (r: u64) {
        fingerprinted(6, a, 0)
    }

    fn exp(&self, a: u64) -> (r: u64) {
        fingerprinted(7, a, 0)
    }

    fn ln_1p(&self, a: u64) -> (r: u64) {
        fingerprinted(8, a, 0)
    }

    fn sqrt(&self, a: u64) -> (r: u64) {
        fingerprinted(9, a, 0)
    }

    fn recip(&self, a: u64) -> (r: u64) {
        fingerprinted(10, a, 0)
    }

    fn plus(&self, a: u64, b: u64) -> (r: u64) {
        fingerprinted(11, a, b)
    }

    fn minus(&self, a: u64, b: u64) -> (r: u64) {
        fingerprinted(12, a, b)
    }

    fn times(&self, a: u64, b: u64) -> (r: u64) {
        fingerprinted(13, a, b)
    }

    fn over(&self, a: u64, b: u64) -> (r: u64) {
        fingerprinted(14, a, b)
    }

    fn max(&self, a: u64, b: u64) -> (r: u64) {
        fingerprinted(15, a, b)
    }
}

/// A clock that tells how long a phase took. Nothing is promised of what it
/// says.
pub trait Clock {
    /// The nanoseconds since some moment.
    fn nanos(&mut self) -> u64;
}

/// The nanoseconds from one moment to another, or none where the clock went
/// back.
pub fn elapsed(from: u64, to: u64) -> (nanos: u64)
    ensures
        nanos == if to >= from {
            (to - from) as u64
        } else {
            0
        },
{
    to.saturating_sub(from)
}

} // verus!
