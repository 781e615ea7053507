use ascii_plot::rational::Rational;
use ascii_plot::scale::{LinearScale, ScaleError, Scaled};

fn scale_of(domain: std::ops::Range<i64>, range: std::ops::Range<i64>) -> LinearScale {
    match LinearScale::new(domain, range) {
        Ok(s) => s,
        Err(e) => panic!("no scale: {:?}", e),
    }
}

fn frac(num: i64, den: i64) -> Rational {
    match Rational::new(num, den) {
        Some(r) => r,
        None => panic!("no fraction {}/{}", num, den),
    }
}

fn image(scale: &LinearScale, value: &Rational) -> Scaled {
    match scale.scale(value) {
        Some(s) => s,
        None => panic!("no image"),
    }
}

#[test]
fn rational_new_keeps_numerator_and_denominator() {
    let r = frac(-7, 3);
    assert_eq!(r.numer(), -7);
    assert_eq!(r.denom(), 3);
}

#[test]
fn rational_new_refuses_a_denominator_that_is_not_positive() {
    assert!(Rational::new(1, 0).is_none());
    assert!(Rational::new(1, -2).is_none());
    assert!(Rational::new(0, i64::MIN).is_none());
    assert!(Rational::new(0, 1).is_some());
}

#[test]
fn rational_from_int_has_denominator_one() {
    let r = Rational::from_int(-42);
    assert_eq!(r.numer(), -42);
    assert_eq!(r.denom(), 1);
}

#[test]
fn scale_new_refuses_an_empty_domain() {
    assert_eq!(LinearScale::new(3..3, 0..10).err(), Some(ScaleError::EmptyDomain));
    assert_eq!(LinearScale::new(4..3, 0..10).err(), Some(ScaleError::EmptyDomain));
}

#[test]
fn scale_new_refuses_an_empty_range() {
    assert_eq!(LinearScale::new(0..1, 10..10).err(), Some(ScaleError::EmptyRange));
    assert_eq!(LinearScale::new(0..1, 10..9).err(), Some(ScaleError::EmptyRange));
}

#[test]
fn scale_new_names_the_domain_first_when_both_are_empty() {
    assert_eq!(LinearScale::new(1..0, 1..0).err(), Some(ScaleError::EmptyDomain));
}

#[test]
fn scale_sends_the_domain_start_to_the_range_start() {
    let s = scale_of(-5..5, 0..10);
    let at = image(&s, &Rational::from_int(-5));
    assert_eq!(at.whole(), 0);
    assert_eq!(at.rem(), 0);
    assert_eq!(at.trunc(), 0);

    let t = scale_of(7..19, -100..-40);
    let at = image(&t, &Rational::from_int(7));
    assert_eq!(at.whole(), -100);
    assert_eq!(at.rem(), 0);
    assert_eq!(at.trunc(), -100);
}

#[test]
fn scale_of_a_half_lands_between_two_cells() {
    // 10 * ((1/2 + 5) / 10) + 0 = 5 + 1/2
    let s = scale_of(-5..5, 0..10);
    let at = image(&s, &frac(1, 2));
    assert_eq!(at.whole(), 5);
    assert_eq!(at.rem(), 10);
    assert_eq!(at.den(), 20);
    assert_eq!(at.trunc(), 5);
}

#[test]
fn scale_stretches_by_the_ratio_of_the_spans() {
    // 30 * ((7/3 - 1) / 4) + 100 = 110
    let s = scale_of(1..5, 100..130);
    let at = image(&s, &frac(7, 3));
    assert_eq!(at.whole(), 110);
    assert_eq!(at.rem(), 0);
    assert_eq!(at.den(), 12);
    // 30 * ((2 - 1) / 4) + 100 = 107 + 1/2
    let at = image(&s, &Rational::from_int(2));
    assert_eq!(at.whole(), 107);
    assert_eq!(at.rem(), 2);
    assert_eq!(at.den(), 4);
    assert_eq!(at.trunc(), 107);
}

#[test]
fn scale_does_not_clamp_outside_the_domain() {
    let s = scale_of(-5..5, 0..10);
    let above = image(&s, &Rational::from_int(10));
    assert_eq!(above.whole(), 15);
    assert_eq!(above.rem(), 0);
    let below = image(&s, &Rational::from_int(-6));
    assert_eq!(below.whole(), -1);
    assert_eq!(below.rem(), 0);
    assert_eq!(below.trunc(), -1);
}

#[test]
fn trunc_rounds_a_negative_image_toward_zero() {
    // 10 * ((-11/2 + 5) / 10) = -1/2: floor -1, toward zero 0
    let s = scale_of(-5..5, 0..10);
    let at = image(&s, &frac(-11, 2));
    assert_eq!(at.whole(), -1);
    assert_eq!(at.rem(), 10);
    assert_eq!(at.den(), 20);
    assert_eq!(at.trunc(), 0);
    // 20 * ((39/4) / 10) - 20 = -1/2
    let t = scale_of(0..10, -20..0);
    let at = image(&t, &frac(39, 4));
    assert_eq!(at.whole(), -1);
    assert_eq!(at.trunc(), 0);
    // -7/2 under the identity on -10..10: floor -4, toward zero -3
    let u = scale_of(-10..10, -10..10);
    let at = image(&u, &frac(-7, 2));
    assert_eq!(at.whole(), -4);
    assert_eq!(at.trunc(), -3);
}

#[test]
fn scale_is_monotonic_over_the_domain() {
    let s = scale_of(-3..4, 10..31);
    let mut k: i64 = -12;
    let mut last: Option<Scaled> = None;
    while k < 16 {
        let at = image(&s, &frac(k, 4));
        if let Some(before) = last {
            // before < at, compared over the product of the denominators
            let left: i128 = (before.whole() as i128 * before.den() as i128 + before.rem() as i128)
                * at.den() as i128;
            let right: i128 = (at.whole() as i128 * at.den() as i128 + at.rem() as i128)
                * before.den() as i128;
            assert!(left < right);
            assert!(before.whole() <= at.whole());
        }
        assert!(10 <= at.whole() && at.whole() < 31);
        last = Some(at);
        k += 1;
    }
}

#[test]
fn check_domain_is_half_open() {
    let s = scale_of(-5..5, 0..10);
    assert!(s.check_domain(&Rational::from_int(-5)));
    assert!(!s.check_domain(&Rational::from_int(5)));
    assert!(s.check_domain(&frac(4999, 1000)));
    assert!(!s.check_domain(&frac(-5001, 1000)));
    assert!(s.check_domain(&Rational::from_int(0)));
    assert!(!s.check_domain(&Rational::from_int(6)));
}

#[test]
fn check_domain_works_at_the_ends_of_the_integers() {
    let s = scale_of(i64::MIN..i64::MAX, 0..1);
    assert!(s.check_domain(&Rational::from_int(i64::MIN)));
    assert!(!s.check_domain(&Rational::from_int(i64::MAX)));
    assert!(s.check_domain(&frac(i64::MAX, i64::MAX)));
    assert!(s.check_domain(&frac(i64::MIN, i64::MAX)));
    let t = scale_of(i64::MAX - 1..i64::MAX, 0..1);
    assert!(!t.check_domain(&frac(i64::MAX, 2)));
    assert!(t.check_domain(&Rational::from_int(i64::MAX - 1)));
}

#[test]
fn scale_is_none_when_the_image_is_too_large() {
    let s = scale_of(0..1, 0..i64::MAX);
    let one = image(&s, &Rational::from_int(1));
    assert_eq!(one.whole(), i64::MAX);
    assert!(s.scale(&Rational::from_int(2)).is_none());
    assert!(s.scale(&Rational::from_int(i64::MAX)).is_none());
    assert!(s.scale(&Rational::from_int(i64::MIN)).is_none());
    // -1 maps to -i64::MAX, which still fits
    let low = image(&s, &Rational::from_int(-1));
    assert_eq!(low.whole(), -i64::MAX);
    // 1 + 1/2 maps to 1.5 * i64::MAX, which does not
    assert!(s.scale(&frac(3, 2)).is_none());
}

#[test]
fn scale_is_exact_on_the_widest_intervals() {
    let s = scale_of(i64::MIN..i64::MAX, i64::MIN..i64::MAX);
    let at = image(&s, &Rational::from_int(0));
    assert_eq!(at.whole(), 0);
    assert_eq!(at.rem(), 0);
    let at = image(&s, &frac(1, 3));
    assert_eq!(at.whole(), 0);
    assert_eq!(at.rem() * 3, at.den());
    let at = image(&s, &frac(-1, 3));
    assert_eq!(at.whole(), -1);
    assert_eq!(at.rem() * 3, at.den() * 2);
    assert_eq!(at.trunc(), 0);
    let at = image(&s, &frac(i64::MAX, i64::MAX));
    assert_eq!(at.whole(), 1);
    assert_eq!(at.rem(), 0);
    // half the span: every cell of the range is hit by two steps of the domain
    let h = scale_of(i64::MIN..i64::MAX, 0..i64::MAX);
    let at = image(&h, &Rational::from_int(i64::MAX - 1));
    assert_eq!(at.whole(), i64::MAX - 1);
    let top: u128 = u64::MAX as u128;
    assert_eq!(at.den(), top);
    assert_eq!(at.rem(), top - (i64::MAX as u128));
}
