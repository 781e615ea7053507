//! Wide integer arithmetic that the exact scaling needs.
use vstd::prelude::*;
use vstd::arithmetic::div_mod::lemma_fundamental_div_mod_converse;

verus! {

/// If `q * m <= x` and `x < b * m` for a positive `m`, then `q < b`.
proof fn lemma_quotient_below(q: int, b: int, m: int, x: int)
    requires
        m > 0,
        q * m <= x,
        x < b * m,
    ensures
        q < b,
{
    assert(q < b) by (nonlinear_arith)
        requires
            m > 0,
            q * m < b * m,
    ;
}

/// One round of the doubling scheme keeps `acc + rest * cur` unchanged.
proof fn lemma_round(acc: int, cur: int, rest: int, acc2: int, cur2: int, rest2: int)
    requires
        rest >= 1,
        rest2 == rest / 2,
        acc2 == if rest % 2 == 1 { acc + cur } else { acc },
        rest2 > 0 ==> cur2 == 2 * cur,
    ensures
        acc2 + rest2 * cur2 == acc + rest * cur,
{
    let bit: int = rest % 2;
    assert(rest == 2 * rest2 + bit);
    if rest2 > 0 {
        assert(rest2 * cur2 == 2 * (rest2 * cur)) by (nonlinear_arith)
            requires
                cur2 == 2 * cur,
        ;
        assert(rest * cur == 2 * (rest2 * cur) + bit * cur) by (nonlinear_arith)
            requires
                rest == 2 * rest2 + bit,
        ;
    } else {
        assert(rest == 1);
        assert(rest2 * cur2 == 0) by (nonlinear_arith)
            requires
                rest2 == 0,
        ;
        assert(rest * cur == cur) by (nonlinear_arith)
            requires
                rest == 1,
        ;
    }
}

/// Quotient and remainder of the product `a * t` by `m`, found without
/// forming the product, which may not fit in 128 bits.
pub fn mul_div_rem(a: u64, t: u128, m: u128) -> (qr: (u64, u128))
    requires
        t < m,
        m <= i128::MAX,
    ensures
        qr.0 == (a as int * t as int) / (m as int),
        qr.1 == (a as int * t as int) % (m as int),
{
    // With k the number of rounds so far and rest == a / 2^k:
    // (a mod 2^k) * t == acc_q * m + acc_r and 2^k * t == cur_q * m + cur_r.
    let mut acc_q: u128 = 0;
    let mut acc_r: u128 = 0;
    let mut cur_q: u128 = 0;
    let mut cur_r: u128 = t;
    let mut rest: u64 = a;
    let ghost mi: int = m as int;
    let ghost product: int = a as int * t as int;
    let ghost bound: int = 0x1_0000_0000_0000_0000;
    proof {
        assert(0 <= product < bound * mi) by (nonlinear_arith)
            requires
                product == a as int * t as int,
                0 <= a < bound,
                0 <= t < mi,
        ;
        assert(acc_q as int * mi + acc_r as int + rest as int * (cur_q as int * mi + cur_r as int)
            == product) by (nonlinear_arith)
            requires
                acc_q == 0,
                acc_r == 0,
                rest == a,
                cur_q == 0,
                cur_r == t,
                product == a as int * t as int,
        ;
    }
    while rest > 0
        invariant
            mi == m as int,
            0 < m <= i128::MAX,
            acc_r < m,
            cur_r < m,
            bound == 0x1_0000_0000_0000_0000,
            0 <= product < bound * mi,
            acc_q as int * mi + acc_r as int + rest as int * (cur_q as int * mi + cur_r as int)
                == product,
        decreases rest,
    {
        let ghost cur: int = cur_q as int * mi + cur_r as int;
        let ghost acc: int = acc_q as int * mi + acc_r as int;
        let ghost rest0: int = rest as int;
        let ghost acc_q0: int = acc_q as int;
        let ghost acc_r0: int = acc_r as int;
        let ghost cur_q0: int = cur_q as int;
        let ghost cur_r0: int = cur_r as int;
        proof {
            assert(cur_q0 * mi >= 0) by (nonlinear_arith)
                requires
                    cur_q0 >= 0,
                    mi >= 0,
            ;
            assert(acc_q0 * mi >= 0) by (nonlinear_arith)
                requires
                    acc_q0 >= 0,
                    mi >= 0,
            ;
            assert(rest0 * cur >= cur) by (nonlinear_arith)
                requires
                    rest0 >= 1,
                    cur >= 0,
            ;
            lemma_quotient_below(cur_q0, bound, mi, product);
            lemma_quotient_below(acc_q0, bound, mi, product);
        }
        if rest % 2 == 1 {
            acc_q = acc_q + cur_q;
            acc_r = acc_r + cur_r;
            if acc_r >= m {
                acc_r = acc_r - m;
                acc_q = acc_q + 1;
            }
        }
        rest = rest / 2;
        if rest > 0 {
            cur_q = 2 * cur_q;
            cur_r = 2 * cur_r;
            if cur_r >= m {
                cur_r = cur_r - m;
                cur_q = cur_q + 1;
            }
        }
        proof {
            let acc2: int = acc_q as int * mi + acc_r as int;
            let cur2: int = cur_q as int * mi + cur_r as int;
            assert(acc2 == if rest0 % 2 == 1 { acc + cur } else { acc }) by (nonlinear_arith)
                requires
                    acc == acc_q0 * mi + acc_r0,
                    cur == cur_q0 * mi + cur_r0,
                    acc2 == acc_q as int * mi + acc_r as int,
                    rest0 % 2 == 1 ==> (acc_q == acc_q0 + cur_q0 && acc_r == acc_r0 + cur_r0) || (
                    acc_q == acc_q0 + cur_q0 + 1 && acc_r == acc_r0 + cur_r0 - mi),
                    rest0 % 2 != 1 ==> acc_q == acc_q0 && acc_r == acc_r0,
            ;
            assert(rest > 0 ==> cur2 == 2 * cur) by (nonlinear_arith)
                requires
                    cur == cur_q0 * mi + cur_r0,
                    cur2 == cur_q as int * mi + cur_r as int,
                    rest > 0 ==> (cur_q == 2 * cur_q0 && cur_r == 2 * cur_r0) || (cur_q == 2
                        * cur_q0 + 1 && cur_r == 2 * cur_r0 - mi),
            ;
            lemma_round(acc, cur, rest0, acc2, cur2, rest as int);
        }
    }
    proof {
        assert(rest as int * (cur_q as int * mi + cur_r as int) == 0) by (nonlinear_arith)
            requires
                rest == 0,
        ;
        assert(acc_q as int * mi >= 0) by (nonlinear_arith)
            requires
                acc_q >= 0,
                mi >= 0,
        ;
        lemma_quotient_below(acc_q as int, bound, mi, product);
        lemma_fundamental_div_mod_converse(product, mi, acc_q as int, acc_r as int);
    }
    (acc_q as u64, acc_r)
}

} // verus!
