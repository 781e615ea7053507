//! Exact fractions, the numbers that scales and curves work on.
use vstd::prelude::*;
use vstd::arithmetic::div_mod::lemma_fundamental_div_mod;

verus! {

/// The mathematical fraction `num / den`. It denotes a number when `den > 0`.
pub struct Ratio {
    pub num: int,
    pub den: int,
}

impl Ratio {
    /// The fraction has a positive denominator.
    pub open spec fn wf(self) -> bool {
        self.den > 0
    }

    /// The integer `i` as a fraction.
    pub open spec fn from_int(i: int) -> Ratio {
        Ratio { num: i, den: 1 }
    }

    /// `self <= other` as numbers.
    pub open spec fn le(self, other: Ratio) -> bool {
        self.num * other.den <= other.num * self.den
    }

    /// `self < other` as numbers.
    pub open spec fn lt(self, other: Ratio) -> bool {
        self.num * other.den < other.num * self.den
    }

    /// `self` and `other` denote the same number.
    pub open spec fn same(self, other: Ratio) -> bool {
        self.num * other.den == other.num * self.den
    }

    /// The largest integer that is not above the number.
    pub open spec fn floor(self) -> int {
        self.num / self.den
    }

    /// The number rounded toward zero.
    pub open spec fn trunc(self) -> int {
        if self.num >= 0 {
            self.num / self.den
        } else {
            -((-self.num) / self.den)
        }
    }
}

/// The floor of a fraction lies in `[lo, hi)` exactly when the fraction does.
pub proof fn lemma_floor_bounds(v: Ratio, lo: int, hi: int)
    requires
        v.wf(),
    ensures
        lo <= v.floor() <==> Ratio::from_int(lo).le(v),
        v.floor() < hi <==> v.lt(Ratio::from_int(hi)),
{
    let q: int = v.num / v.den;
    let r: int = v.num % v.den;
    lemma_fundamental_div_mod(v.num, v.den);
    assert(lo <= q <==> lo * v.den <= v.num) by (nonlinear_arith)
        requires
            v.num == v.den * q + r,
            0 <= r < v.den,
    ;
    assert(q < hi <==> v.num < hi * v.den) by (nonlinear_arith)
        requires
            v.num == v.den * q + r,
            0 <= r < v.den,
    ;
}

/// Rounding toward zero and rounding down agree on a fraction that is not
/// negative.
pub proof fn lemma_trunc_is_floor(v: Ratio)
    requires
        v.wf(),
        Ratio::from_int(0).le(v),
    ensures
        v.trunc() == v.floor(),
{
}

/// An exact fraction of two machine integers with a positive denominator.
#[derive(Clone, Copy, Debug)]
pub struct Rational {
    num: i64,
    den: i64,
}

impl View for Rational {
    type V = Ratio;

    closed spec fn view(&self) -> Ratio {
        Ratio { num: self.num as int, den: self.den as int }
    }
}

impl Rational {
    /// Every value of this type has a positive denominator.
    #[verifier::type_invariant]
    pub open spec fn inv(self) -> bool {
        self@.wf()
    }

    /// The fraction `num / den`, or `None` when `den` is not positive.
    pub fn new(num: i64, den: i64) -> (r: Option<Rational>)
        ensures
            r.is_some() <==> den > 0,
            r matches Some(q) ==> q@ == (Ratio { num: num as int, den: den as int }),
    {
        if den > 0 {
            Some(Rational { num, den })
        } else {
            None
        }
    }

    /// The integer `value` as a fraction.
    pub fn from_int(value: i64) -> (r: Rational)
        ensures
            r@ == Ratio::from_int(value as int),
    {
        Rational { num: value, den: 1 }
    }

    /// The numerator.
    pub fn numer(&self) -> (n: i64)
        ensures
            n == self@.num,
    {
        self.num
    }

    /// The denominator, which is positive.
    pub fn denom(&self) -> (d: i64)
        ensures
            d == self@.den,
            d > 0,
    {
        proof {
            use_type_invariant(self);
        }
        self.den
    }
}

} // verus!
