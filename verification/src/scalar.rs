//! The numeric-capability interface every routine of the crate is generic
//! over, together with a fully verified instance on `u64`.
//!
//! The interface deliberately promises nothing about the algebra of its
//! operations: no associativity, no commutativity, no inverses. Contracts
//! elsewhere in the crate therefore state results as the exact formula the
//! code evaluates, in the same operation order, which is the strongest claim
//! that holds for every instance (rounded arithmetic included).

use vstd::prelude::*;

verus! {

/// Numeric capabilities: arithmetic, comparison, a few transcendental
/// operations, and the constants the algorithms need.
///
/// Each executable operation is pinned to its own specification function, so
/// callers can reason about results symbolically. The specification-level
/// members default to unconstrained values; an instance written outside the
/// verifier's view inherits those defaults and is responsible for making
/// each operation deterministic, so that it agrees with them.
pub trait Scalar: Sized + Copy {
    /// Specification-level additive identity.
    open spec fn model_zero() -> Self {
        vstd::pervasive::arbitrary()
    }

    /// Specification-level multiplicative identity.
    open spec fn model_one() -> Self {
        vstd::pervasive::arbitrary()
    }

    /// Specification-level circle constant.
    open spec fn model_pi() -> Self {
        vstd::pervasive::arbitrary()
    }

    /// Specification-level conversion from a count.
    open spec fn model_from(n: int) -> Self {
        vstd::pervasive::arbitrary()
    }

    /// Specification-level base of the natural logarithm.
    open spec fn model_e() -> Self {
        vstd::pervasive::arbitrary()
    }

    /// Specification-level one half.
    open spec fn model_half() -> Self {
        vstd::pervasive::arbitrary()
    }

    /// Specification-level negation.
    open spec fn model_neg(self) -> Self {
        vstd::pervasive::arbitrary()
    }

    /// Specification-level sum.
    open spec fn model_add(self, o: Self) -> Self {
        vstd::pervasive::arbitrary()
    }

    /// Specification-level difference.
    open spec fn model_sub(self, o: Self) -> Self {
        vstd::pervasive::arbitrary()
    }

    /// Specification-level product.
    open spec fn model_mul(self, o: Self) -> Self {
        vstd::pervasive::arbitrary()
    }

    /// Specification-level quotient.
    open spec fn model_div(self, o: Self) -> Self {
        vstd::pervasive::arbitrary()
    }

    /// Specification-level strict order.
    open spec fn model_lt(self, o: Self) -> bool {
        vstd::pervasive::arbitrary()
    }

    /// Specification-level equality test (a rounded type reports `false`
    /// when either operand is not a number).
    open spec fn model_eq(self, o: Self) -> bool {
        vstd::pervasive::arbitrary()
    }

    /// Whether the two values are comparable (a rounded type reports `false`
    /// when either operand is not a number).
    open spec fn model_cmp_ok(self, o: Self) -> bool {
        vstd::pervasive::arbitrary()
    }

    /// Specification-level natural exponential.
    open spec fn model_exp(self) -> Self {
        vstd::pervasive::arbitrary()
    }

    /// Specification-level natural logarithm.
    open spec fn model_ln(self) -> Self {
        vstd::pervasive::arbitrary()
    }

    /// Specification-level square root.
    open spec fn model_sqrt(self) -> Self {
        vstd::pervasive::arbitrary()
    }

    /// Specification-level power.
    open spec fn model_powf(self, e: Self) -> Self {
        vstd::pervasive::arbitrary()
    }

    /// The additive identity.
    fn zero() -> (r: Self)
        ensures
            r == Self::model_zero(),
    ;

    /// The multiplicative identity.
    fn one() -> (r: Self)
        ensures
            r == Self::model_one(),
    ;

    /// The circle constant.
    fn pi() -> (r: Self)
        ensures
            r == Self::model_pi(),
    ;

    /// The value standing for the count `n`.
    fn from_count(n: usize) -> (r: Self)
        ensures
            r == Self::model_from(n as int),
    ;

    /// The base of the natural logarithm.
    fn euler() -> (r: Self)
        ensures
            r == Self::model_e(),
    ;

    /// One half.
    fn half() -> (r: Self)
        ensures
            r == Self::model_half(),
    ;

    /// Negation.
    fn neg(self) -> (r: Self)
        ensures
            r == self.model_neg(),
    ;

    /// Addition.
    fn plus(self, o: Self) -> (r: Self)
        ensures
            r == self.model_add(o),
    ;

    /// Subtraction.
    fn minus(self, o: Self) -> (r: Self)
        ensures
            r == self.model_sub(o),
    ;

    /// Multiplication.
    fn times(self, o: Self) -> (r: Self)
        ensures
            r == self.model_mul(o),
    ;

    /// Division.
    fn divided_by(self, o: Self) -> (r: Self)
        ensures
            r == self.model_div(o),
    ;

    /// Strict comparison.
    fn lt(self, o: Self) -> (r: bool)
        ensures
            r == self.model_lt(o),
    ;

    /// Equality test.
    fn eq_val(self, o: Self) -> (r: bool)
        ensures
            r == self.model_eq(o),
    ;

    /// Whether the two values compare at all.
    fn cmp_ok(self, o: Self) -> (r: bool)
        ensures
            r == self.model_cmp_ok(o),
    ;

    /// The natural exponential.
    fn exp(self) -> (r: Self)
        ensures
            r == self.model_exp(),
    ;

    /// The natural logarithm.
    fn ln(self) -> (r: Self)
        ensures
            r == self.model_ln(),
    ;

    /// The square root.
    fn sqrt(self) -> (r: Self)
        ensures
            r == self.model_sqrt(),
    ;

    /// Exponentiation.
    fn powf(self, e: Self) -> (r: Self)
        ensures
            r == self.model_powf(e),
    ;
}

/// A verified instance of [`Scalar`] witnessing the interface inside the
/// crate: saturating unsigned arithmetic, with the transcendental operations
/// taken as identities and the circle constant rounded to its nearest
/// integer.
impl Scalar for u64 {
    open spec fn model_zero() -> u64 {
        0u64
    }

    open spec fn model_one() -> u64 {
        1u64
    }

    open spec fn model_pi() -> u64 {
        3u64
    }

    open spec fn model_from(n: int) -> u64 {
        if 0 <= n <= u64::MAX {
            n as u64
        } else {
            u64::MAX
        }
    }

    open spec fn model_e() -> u64 {
        3u64
    }

    open spec fn model_half() -> u64 {
        0u64
    }

    open spec fn model_neg(self) -> u64 {
        0u64
    }

    open spec fn model_add(self, o: u64) -> u64 {
        if self + o <= u64::MAX {
            (self + o) as u64
        } else {
            u64::MAX
        }
    }

    open spec fn model_sub(self, o: u64) -> u64 {
        if self >= o {
            (self - o) as u64
        } else {
            0u64
        }
    }

    open spec fn model_mul(self, o: u64) -> u64 {
        if self * o <= u64::MAX {
            (self * o) as u64
        } else {
            u64::MAX
        }
    }

    open spec fn model_div(self, o: u64) -> u64 {
        if o == 0 {
            0u64
        } else {
            (self / o) as u64
        }
    }

    open spec fn model_lt(self, o: u64) -> bool {
        self < o
    }

    open spec fn model_eq(self, o: u64) -> bool {
        self == o
    }

    open spec fn model_cmp_ok(self, o: u64) -> bool {
        true
    }

    open spec fn model_exp(self) -> u64 {
        self
    }

    open spec fn model_ln(self) -> u64 {
        self
    }

    open spec fn model_sqrt(self) -> u64 {
        self
    }

    open spec fn model_powf(self, e: u64) -> u64 {
        self
    }

    fn zero() -> u64 {
        0
    }

    fn one() -> u64 {
        1
    }

    fn pi() -> u64 {
        3
    }

    fn from_count(n: usize) -> u64 {
        n as u64
    }

    fn euler() -> u64 {
        3
    }

    fn half() -> u64 {
        0
    }

    fn neg(self) -> u64 {
        0
    }

    fn plus(self, o: u64) -> u64 {
        if self <= u64::MAX - o {
            self + o
        } else {
            u64::MAX
        }
    }

    fn minus(self, o: u64) -> u64 {
        if self >= o {
            self - o
        } else {
            0
        }
    }

    fn times(self, o: u64) -> (r: u64) {
        if o == 0 {
            0
        } else if self <= u64::MAX / o {
            proof {
                assert(self * o <= u64::MAX) by (nonlinear_arith)
                    requires
                        o > 0,
                        self <= u64::MAX / o,
                ;
            }
            self * o
        } else {
            proof {
                assert(self * o > u64::MAX) by (nonlinear_arith)
                    requires
                        o > 0,
                        self > u64::MAX / o,
                ;
            }
            u64::MAX
        }
    }

    fn divided_by(self, o: u64) -> u64 {
        if o == 0 {
            0
        } else {
            self / o
        }
    }

    fn lt(self, o: u64) -> bool {
        self < o
    }

    fn eq_val(self, o: u64) -> bool {
        self == o
    }

    fn cmp_ok(self, o: u64) -> bool {
        true
    }

    fn exp(self) -> u64 {
        self
    }

    fn ln(self) -> u64 {
        self
    }

    fn sqrt(self) -> u64 {
        self
    }

    fn powf(self, e: u64) -> u64 {
        self
    }
}

} // verus!
