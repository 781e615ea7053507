//! Linear scales: exact affine maps from one integer interval onto another.
use vstd::prelude::*;
use vstd::arithmetic::div_mod::{lemma_fundamental_div_mod, lemma_fundamental_div_mod_converse};
use std::ops::Range;
use crate::arith::mul_div_rem;
use crate::rational::{lemma_floor_bounds, Ratio, Rational};

verus! {

/// The mathematical content of a scale: a source interval (the domain) and a
/// destination interval (the range), both half-open.
pub struct ScaleView {
    pub domain_start: int,
    pub domain_end: int,
    pub range_start: int,
    pub range_end: int,
}

impl ScaleView {
    /// Both intervals are non-empty.
    pub open spec fn wf(self) -> bool {
        self.domain_start < self.domain_end && self.range_start < self.range_end
    }

    pub open spec fn domain_span(self) -> int {
        self.domain_end - self.domain_start
    }

    pub open spec fn range_span(self) -> int {
        self.range_end - self.range_start
    }

    /// `domain_start <= v < domain_end`.
    pub open spec fn contains(self, v: Ratio) -> bool {
        Ratio::from_int(self.domain_start).le(v) && v.lt(Ratio::from_int(self.domain_end))
    }

    /// The image of `v`,
    /// `range_span * ((v - domain_start) / domain_span) + range_start`,
    /// as one fraction over the denominator `domain_span * v.den`.
    pub open spec fn scale(self, v: Ratio) -> Ratio {
        Ratio {
            num: self.range_span() * v.num - (self.range_span() * self.domain_start) * v.den + (
            self.range_start * self.domain_span()) * v.den,
            den: self.domain_span() * v.den,
        }
    }
}

/// The numerator of an image, with the distance of the value from the start
/// of the domain set apart.
proof fn lemma_image_parts(s: ScaleView, v: Ratio)
    ensures
        s.scale(v).num == s.range_span() * (v.num - s.domain_start * v.den) + s.range_start * (
        s.domain_span() * v.den),
{
    let a: int = s.range_span();
    let dd: int = s.domain_span();
    assert(a * v.num - (a * s.domain_start) * v.den + (s.range_start * dd) * v.den == a * (v.num
        - s.domain_start * v.den) + s.range_start * (dd * v.den)) by (nonlinear_arith);
}

/// Why a scale could not be built.
#[derive(Clone, Copy, Debug, PartialEq, Eq)]
pub enum ScaleError {
    /// The domain holds no value: its end is not above its start.
    EmptyDomain,
    /// The range holds no value: its end is not above its start.
    EmptyRange,
}

/// A linear map from the integer interval `domain` onto the integer interval
/// `range`. Both are non-empty.
pub struct LinearScale {
    domain: Range<i64>,
    range: Range<i64>,
}

impl View for LinearScale {
    type V = ScaleView;

    closed spec fn view(&self) -> ScaleView {
        ScaleView {
            domain_start: self.domain.start as int,
            domain_end: self.domain.end as int,
            range_start: self.range.start as int,
            range_end: self.range.end as int,
        }
    }
}

/// An exact result of scaling: the number `whole + rem / den`, where
/// `0 <= rem < den`.
#[derive(Clone, Copy, Debug)]
pub struct Scaled {
    whole: i64,
    rem: u128,
    den: u128,
}

impl View for Scaled {
    type V = Ratio;

    closed spec fn view(&self) -> Ratio {
        Ratio { num: self.whole as int * self.den as int + self.rem as int, den: self.den as int }
    }
}

impl Scaled {
    #[verifier::type_invariant]
    spec fn inv(self) -> bool {
        self.rem < self.den
    }

    /// The integer part: the largest integer not above the number.
    pub fn whole(&self) -> (w: i64)
        ensures
            w == self@.floor(),
    {
        proof {
            use_type_invariant(self);
            lemma_fundamental_div_mod_converse(
                self@.num,
                self@.den,
                self.whole as int,
                self.rem as int,
            );
        }
        self.whole
    }

    /// The numerator of the fractional part, over `den()`.
    pub fn rem(&self) -> (r: u128)
        ensures
            r == self@.num % self@.den,
    {
        proof {
            use_type_invariant(self);
            lemma_fundamental_div_mod_converse(
                self@.num,
                self@.den,
                self.whole as int,
                self.rem as int,
            );
        }
        self.rem
    }

    /// The denominator of the fractional part, which is positive.
    pub fn den(&self) -> (d: u128)
        ensures
            d == self@.den,
            d > 0,
    {
        proof {
            use_type_invariant(self);
        }
        self.den
    }

    /// The number rounded toward zero, as a grid index is taken from it.
    pub fn trunc(&self) -> (t: i64)
        ensures
            t == self@.trunc(),
    {
        proof {
            use_type_invariant(self);
            let w: int = self.whole as int;
            let d: int = self.den as int;
            let r: int = self.rem as int;
            lemma_fundamental_div_mod_converse(self@.num, d, w, r);
            if w < 0 {
                assert(w * d <= -d) by (nonlinear_arith)
                    requires
                        w <= -1,
                        d > 0,
                ;
                if r > 0 {
                    assert(-(w * d + r) == (-w - 1) * d + (d - r)) by (nonlinear_arith);
                    lemma_fundamental_div_mod_converse(-self@.num, d, -w - 1, d - r);
                } else {
                    assert(-(w * d + r) == (-w) * d + 0) by (nonlinear_arith)
                        requires
                            r == 0,
                    ;
                    lemma_fundamental_div_mod_converse(-self@.num, d, -w, 0);
                }
            } else {
                assert(w * d >= 0) by (nonlinear_arith)
                    requires
                        w >= 0,
                        d > 0,
                ;
            }
        }
        if self.whole < 0 && self.rem > 0 {
            self.whole + 1
        } else {
            self.whole
        }
    }
}

/// `|x * y| <= bx * by` when `|x| <= bx` and `0 <= y <= by`.
proof fn lemma_product_bound(x: int, y: int, bx: int, by: int)
    requires
        -bx <= x <= bx,
        0 <= y <= by,
    ensures
        -(bx * by) <= x * y <= bx * by,
{
    assert(-(bx * by) <= x * y <= bx * by) by (nonlinear_arith)
        requires
            -bx <= x <= bx,
            0 <= y <= by,
    ;
}

impl LinearScale {
    #[verifier::type_invariant]
    spec fn inv(self) -> bool {
        self.domain.start < self.domain.end && self.range.start < self.range.end
    }

    /// The scale from `domain` onto `range`. An interval whose end is not
    /// above its start is refused, the domain first.
    pub fn new(domain: Range<i64>, range: Range<i64>) -> (r: Result<LinearScale, ScaleError>)
        ensures
            match r {
                Ok(s) => {
                    &&& domain.start < domain.end
                    &&& range.start < range.end
                    &&& s@ == (ScaleView {
                        domain_start: domain.start as int,
                        domain_end: domain.end as int,
                        range_start: range.start as int,
                        range_end: range.end as int,
                    })
                },
                Err(e) => {
                    if domain.end <= domain.start {
                        e == ScaleError::EmptyDomain
                    } else {
                        range.end <= range.start && e == ScaleError::EmptyRange
                    }
                },
            },
    {
        if domain.end <= domain.start {
            Err(ScaleError::EmptyDomain)
        } else if range.end <= range.start {
            Err(ScaleError::EmptyRange)
        } else {
            Ok(LinearScale { domain, range })
        }
    }

    /// Whether `value` lies in the domain: at or above its start and below
    /// its end.
    pub fn check_domain(&self, value: &Rational) -> (b: bool)
        ensures
            b == self@.contains(value@),
    {
        proof {
            use_type_invariant(self);
        }
        let d: i128 = value.denom() as i128;
        let n: i128 = value.numer() as i128;
        let ds: i128 = self.domain.start as i128;
        let de: i128 = self.domain.end as i128;
        proof {
            lemma_product_bound(ds as int, d as int, 0x8000_0000_0000_0000, 0x7fff_ffff_ffff_ffff);
            lemma_product_bound(de as int, d as int, 0x8000_0000_0000_0000, 0x7fff_ffff_ffff_ffff);
        }
        ds * d <= n && n < de * d
    }

    /// The image of `value` under the scale, exactly. The result is `None`
    /// when its integer part does not fit in 64 bits, which cannot happen for
    /// a value of the domain.
    pub fn scale(&self, value: &Rational) -> (r: Option<Scaled>)
        ensures
            r.is_some() <==> i64::MIN <= self@.scale(value@).floor() <= i64::MAX,
            r matches Some(image) ==> image@ == self@.scale(value@) && image@.wf(),
            self@.contains(value@) ==> r.is_some(),
    {
        proof {
            use_type_invariant(self);
        }
        let d: i128 = value.denom() as i128;
        let n: i128 = value.numer() as i128;
        let ds: i128 = self.domain.start as i128;
        let rs: i128 = self.range.start as i128;
        proof {
            if self@.contains(value@) {
                lemma_scale_in_range(self@, value@);
            }
        }
        let dspan: u128 = (self.domain.end as i128 - ds) as u128;
        let rspan: u64 = (self.range.end as i128 - rs) as u64;
        proof {
            lemma_product_bound(
                dspan as int,
                d as int,
                0xffff_ffff_ffff_ffff,
                0x7fff_ffff_ffff_ffff,
            );
            lemma_product_bound(ds as int, d as int, 0x8000_0000_0000_0000, 0x7fff_ffff_ffff_ffff);
            assert(dspan as int * d as int > 0) by (nonlinear_arith)
                requires
                    dspan > 0,
                    d > 0,
            ;
        }
        // With value == n / d, the image is range.start + rspan * t / m.
        let m: u128 = dspan * (d as u128);
        let t: i128 = n - ds * d;
        // t == k * m + u with 0 <= u < m.
        let k: i128;
        let u: u128;
        if t >= 0 {
            let tu: u128 = t as u128;
            k = (tu / m) as i128;
            u = tu % m;
            proof {
                lemma_fundamental_div_mod(tu as int, m as int);
                assert(t as int == k as int * m as int + u as int) by (nonlinear_arith)
                    requires
                        t as int == m as int * k as int + u as int,
                ;
            }
        } else {
            let tn: u128 = (-t) as u128;
            let kq: u128 = tn / m;
            let ur: u128 = tn % m;
            proof {
                lemma_fundamental_div_mod(tn as int, m as int);
            }
            if ur == 0 {
                k = -(kq as i128);
                u = 0;
            } else {
                k = -(kq as i128) - 1;
                u = m - ur;
            }
            proof {
                assert(t as int == k as int * m as int + u as int) by (nonlinear_arith)
                    requires
                        -(t as int) == m as int * kq as int + ur as int,
                        (k as int == -(kq as int) && u == 0 && ur == 0) || (k as int == -(kq as int)
                            - 1 && u as int == m as int - ur as int),
                ;
            }
        }
        // rspan * u == q * m + rem with 0 <= rem < m.
        let qr: (u64, u128) = mul_div_rem(rspan, u, m);
        let q: u64 = qr.0;
        let rem: u128 = qr.1;
        let ghost whole: int = rs as int + rspan as int * k as int + q as int;
        proof {
            let mi: int = m as int;
            let image: Ratio = self@.scale(value@);
            lemma_fundamental_div_mod(rspan as int * u as int, mi);
            lemma_image_parts(self@, value@);
            assert(image.den == mi);
            assert(image.num == rspan as int * t as int + rs as int * mi);
            assert(image.num == whole * mi + rem as int) by (nonlinear_arith)
                requires
                    image.num == rspan as int * t as int + rs as int * mi,
                    t as int == k as int * mi + u as int,
                    rspan as int * u as int == mi * q as int + rem as int,
                    whole == rs as int + rspan as int * k as int + q as int,
            ;
            lemma_fundamental_div_mod_converse(image.num, mi, whole, rem as int);
        }
        // The integer part is range.start + rspan * k + q. Where the product
        // is far outside 64 bits, so is the sum.
        match (rspan as i128).checked_mul(k) {
            None => None,
            Some(ak) => {
                if ak < -0x4_0000_0000_0000_0000i128 || ak > 0x4_0000_0000_0000_0000i128 {
                    None
                } else {
                    let w: i128 = rs + ak + q as i128;
                    if w < i64::MIN as i128 || w > i64::MAX as i128 {
                        None
                    } else {
                        Some(Scaled { whole: w as i64, rem, den: m })
                    }
                }
            },
        }
    }
}

/// A scale keeps the order of its arguments: a smaller value has the smaller
/// image.
pub proof fn lemma_scale_monotonic(s: ScaleView, v1: Ratio, v2: Ratio)
    requires
        s.wf(),
        v1.wf(),
        v2.wf(),
        v1.lt(v2),
    ensures
        s.scale(v1).lt(s.scale(v2)),
        s.scale(v1).le(s.scale(v2)),
{
    let a: int = s.range_span();
    let dd: int = s.domain_span();
    let ds: int = s.domain_start;
    let rs: int = s.range_start;
    let i1: Ratio = s.scale(v1);
    let i2: Ratio = s.scale(v2);
    let gap: int = v2.num * v1.den - v1.num * v2.den;
    let x1: int = v1.num - ds * v1.den;
    let x2: int = v2.num - ds * v2.den;
    let c: int = rs * dd;
    lemma_image_parts(s, v1);
    lemma_image_parts(s, v2);
    assert(x2 * v1.den - x1 * v2.den == gap) by (nonlinear_arith)
        requires
            x1 == v1.num - ds * v1.den,
            x2 == v2.num - ds * v2.den,
            gap == v2.num * v1.den - v1.num * v2.den,
    ;
    assert(i1.num == a * x1 + c * v1.den && i2.num == a * x2 + c * v2.den) by (nonlinear_arith)
        requires
            i1.num == a * x1 + rs * (dd * v1.den),
            i2.num == a * x2 + rs * (dd * v2.den),
            c == rs * dd,
    ;
    let cross: int = i2.num * v1.den - i1.num * v2.den;
    assert(cross == a * (x2 * v1.den - x1 * v2.den)) by (nonlinear_arith)
        requires
            cross == i2.num * v1.den - i1.num * v2.den,
            i1.num == a * x1 + c * v1.den,
            i2.num == a * x2 + c * v2.den,
    ;
    assert(i2.num * i1.den - i1.num * i2.den == dd * cross) by (nonlinear_arith)
        requires
            i1.den == dd * v1.den,
            i2.den == dd * v2.den,
            cross == i2.num * v1.den - i1.num * v2.den,
    ;
    assert(dd * cross > 0) by (nonlinear_arith)
        requires
            cross == a * gap,
            a > 0,
            dd > 0,
            gap > 0,
    ;
}

/// A scale maps the ends of its domain exactly: the start of the domain to
/// the start of the range, the end of the domain to the end of the range.
pub proof fn lemma_scale_endpoints(s: ScaleView)
    requires
        s.wf(),
    ensures
        s.scale(Ratio::from_int(s.domain_start)).same(Ratio::from_int(s.range_start)),
        s.scale(Ratio::from_int(s.domain_start)).floor() == s.range_start,
        s.scale(Ratio::from_int(s.domain_end)).same(Ratio::from_int(s.range_end)),
        s.scale(Ratio::from_int(s.domain_end)).floor() == s.range_end,
{
    let first: Ratio = s.scale(Ratio::from_int(s.domain_start));
    let last: Ratio = s.scale(Ratio::from_int(s.domain_end));
    let dd: int = s.domain_span();
    lemma_image_parts(s, Ratio::from_int(s.domain_start));
    lemma_image_parts(s, Ratio::from_int(s.domain_end));
    assert(first.num == s.range_start * dd) by (nonlinear_arith)
        requires
            first.num == s.range_span() * (s.domain_start - s.domain_start * 1) + s.range_start * (
            dd * 1),
    ;
    assert(last.num == s.range_end * dd) by (nonlinear_arith)
        requires
            last.num == s.range_span() * (s.domain_end - s.domain_start * 1) + s.range_start * (dd
                * 1),
            s.range_span() == s.range_end - s.range_start,
            dd == s.domain_end - s.domain_start,
    ;
    lemma_fundamental_div_mod_converse(first.num, dd, s.range_start, 0);
    lemma_fundamental_div_mod_converse(last.num, dd, s.range_end, 0);
}

/// The domain is half-open: its start belongs to it, its end does not.
pub proof fn lemma_domain_half_open(s: ScaleView)
    requires
        s.wf(),
    ensures
        s.contains(Ratio::from_int(s.domain_start)),
        !s.contains(Ratio::from_int(s.domain_end)),
{
}

/// The image of a value of the domain lies in the range: it is at least the
/// start of the range and below its end.
pub proof fn lemma_scale_in_range(s: ScaleView, v: Ratio)
    requires
        s.wf(),
        v.wf(),
        s.contains(v),
    ensures
        s.scale(v).wf(),
        s.range_start <= s.scale(v).floor() < s.range_end,
        Ratio::from_int(s.range_start).le(s.scale(v)),
        s.scale(v).lt(Ratio::from_int(s.range_end)),
{
    let a: int = s.range_span();
    let dd: int = s.domain_span();
    let image: Ratio = s.scale(v);
    let t: int = v.num - s.domain_start * v.den;
    let m: int = dd * v.den;
    lemma_image_parts(s, v);
    assert(m > 0) by (nonlinear_arith)
        requires
            m == dd * v.den,
            dd > 0,
            v.den > 0,
    ;
    assert(0 <= t < m) by (nonlinear_arith)
        requires
            t == v.num - s.domain_start * v.den,
            m == (s.domain_end - s.domain_start) * v.den,
            s.domain_start * v.den <= v.num * 1,
            v.num * 1 < s.domain_end * v.den,
    ;
    assert(s.range_start * m <= image.num < s.range_end * m) by (nonlinear_arith)
        requires
            image.num == a * t + s.range_start * m,
            a == s.range_end - s.range_start,
            a > 0,
            0 <= t < m,
    ;
    lemma_floor_bounds(image, s.range_start, s.range_end);
}

/// Where domain and range have the same length, the scale is a shift: the
/// floor of the image is the floor of the value, moved by the distance
/// between the two starts.
pub proof fn lemma_scale_shift(s: ScaleView, v: Ratio)
    requires
        s.wf(),
        v.wf(),
        s.domain_span() == s.range_span(),
    ensures
        s.scale(v).floor() == v.floor() - s.domain_start + s.range_start,
{
    let a: int = s.range_span();
    let image: Ratio = s.scale(v);
    let q: int = v.num / v.den;
    let r: int = v.num % v.den;
    let m: int = a * v.den;
    lemma_image_parts(s, v);
    lemma_fundamental_div_mod(v.num, v.den);
    assert(m > 0) by (nonlinear_arith)
        requires
            m == a * v.den,
            a > 0,
            v.den > 0,
    ;
    assert(0 <= a * r < m) by (nonlinear_arith)
        requires
            m == a * v.den,
            a > 0,
            0 <= r < v.den,
    ;
    assert(image.num == (q - s.domain_start + s.range_start) * m + a * r) by (nonlinear_arith)
        requires
            image.num == a * (v.num - s.domain_start * v.den) + s.range_start * (a * v.den),
            v.num == v.den * q + r,
            m == a * v.den,
    ;
    lemma_fundamental_div_mod_converse(image.num, m, q - s.domain_start + s.range_start, a * r);
}

} // verus!
