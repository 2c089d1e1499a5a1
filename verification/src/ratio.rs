//! Exact non-negative rational numbers, used for scale factors and rates.
use vstd::prelude::*;

verus! {

/// A non-negative rational number `numerator / denominator` with a non-zero denominator.
#[derive(Debug, Clone, Copy)]
pub struct Ratio {
    numerator: u64,
    denominator: u64,
}

/// `value` multiplied by `r`, rounded down, and saturated at `u64::MAX`.
pub open spec fn scaled(value: nat, r: Ratio) -> nat {
    let exact = value * r.numer() / r.denom();
    if exact > u64::MAX {
        u64::MAX as nat
    } else {
        exact
    }
}

/// The product of two `u64` values fits in a `u128`.
proof fn lemma_product_fits(a: u64, b: u64)
    ensures
        (a as nat) * (b as nat) <= u128::MAX,
{
    assert((a as nat) * (b as nat) <= (u64::MAX as nat) * (u64::MAX as nat)) by (nonlinear_arith)
        requires
            a <= u64::MAX,
            b <= u64::MAX,
    ;
}

impl Ratio {
    #[verifier::type_invariant]
    spec fn denominator_positive(self) -> bool {
        self.denominator > 0
    }

    /// The numerator.
    pub closed spec fn numer(self) -> nat {
        self.numerator as nat
    }

    /// The denominator.
    pub closed spec fn denom(self) -> nat {
        self.denominator as nat
    }

    /// Every value of this type has a non-zero denominator.
    pub open spec fn is_valid(self) -> bool {
        self.denom() > 0
    }

    /// `self` and `other` stand for the same number.
    pub open spec fn same_value(self, other: Ratio) -> bool {
        self.numer() * other.denom() == other.numer() * self.denom()
    }

    /// `self` is at least `other` as numbers.
    pub open spec fn spec_at_least(self, other: Ratio) -> bool {
        self.numer() * other.denom() >= other.numer() * self.denom()
    }

    /// The ratio `numerator / denominator`.
    pub fn new(numerator: u64, denominator: u64) -> (r: Ratio)
        requires
            denominator > 0,
        ensures
            r.numer() == numerator,
            r.denom() == denominator,
    {
        Ratio { numerator, denominator }
    }

    /// The ratio `0 / 1`.
    pub fn zero() -> (r: Ratio)
        ensures
            r.numer() == 0,
            r.denom() == 1,
    {
        Ratio { numerator: 0, denominator: 1 }
    }

    /// The ratio `value / 1`.
    pub fn whole(value: u64) -> (r: Ratio)
        ensures
            r.numer() == value,
            r.denom() == 1,
    {
        Ratio { numerator: value, denominator: 1 }
    }

    /// The numerator.
    pub fn numerator(&self) -> (n: u64)
        ensures
            n == self.numer(),
    {
        self.numerator
    }

    /// The denominator, which is never zero.
    pub fn denominator(&self) -> (d: u64)
        ensures
            d == self.denom(),
            d > 0,
    {
        proof {
            use_type_invariant(self);
        }
        self.denominator
    }

    /// Every ratio has a non-zero denominator.
    pub fn check_valid(&self)
        ensures
            self.is_valid(),
    {
        proof {
            use_type_invariant(self);
        }
    }

    /// Whether `self` is at least `other` as numbers.
    pub fn at_least(&self, other: &Ratio) -> (b: bool)
        ensures
            b == self.spec_at_least(*other),
            b == (self.numer() * other.denom() >= other.numer() * self.denom()),
    {
        proof {
            lemma_product_fits(self.numerator, other.denominator);
            lemma_product_fits(other.numerator, self.denominator);
        }
        let lhs: u128 = (self.numerator as u128) * (other.denominator as u128);
        let rhs: u128 = (other.numerator as u128) * (self.denominator as u128);
        proof {
            assert(lhs == self.numer() * other.denom()) by (nonlinear_arith)
                requires
                    lhs == (self.numerator as u128) * (other.denominator as u128),
                    self.numer() == self.numerator,
                    other.denom() == other.denominator;
            assert(rhs == other.numer() * self.denom()) by (nonlinear_arith)
                requires
                    rhs == (other.numerator as u128) * (self.denominator as u128),
                    other.numer() == other.numerator,
                    self.denom() == self.denominator;
        }
        lhs >= rhs
    }

    /// `value` multiplied by this ratio, rounded down, saturated at `u64::MAX`.
    pub fn scale(&self, value: u64) -> (r: u64)
        ensures
            r == scaled(value as nat, *self),
    {
        proof {
            use_type_invariant(self);
        }
        proof {
            lemma_product_fits(value, self.numerator);
        }
        let product: u128 = (value as u128) * (self.numerator as u128);
        let exact: u128 = product / (self.denominator as u128);
        proof {
            assert(product == value * self.numer()) by (nonlinear_arith)
                requires
                    product == (value as u128) * (self.numerator as u128),
                    self.numer() == self.numerator;
        }
        if exact > u64::MAX as u128 {
            u64::MAX
        } else {
            exact as u64
        }
    }
}

/// `a` is at least `b` exactly when `a` is at least `b` as rational numbers:
/// `a.numer() / a.denom() >= b.numer() / b.denom()`, compared over the
/// common denominator. In particular `a` is at least the whole number `n`
/// exactly when `a.numer() >= n * a.denom()`.
pub proof fn lemma_at_least_is_numeric_order(a: Ratio, b: Ratio)
    ensures
        a.spec_at_least(b) <==> a.numer() * b.denom() >= b.numer() * a.denom(),
        b.denom() == 1 ==> (a.spec_at_least(b) <==> a.numer() >= b.numer() * a.denom()),
{
}

} // verus!
