//! The real numbers as values: the formulas without any rounding.
//!
//! What holds of a formula up to rounding is stated here of the real numbers,
//! where there is none.
use vstd::prelude::*;

use crate::number::{ratio, Ordered, Total, Value};

verus! {

/// The non-negative real number whose square is `x`.
pub open spec fn is_real_root(x: real, r: real) -> bool {
    r >= 0 as real && r * r == x
}

impl Value for real {
    open spec fn sum(self, other: Self) -> Self {
        self + other
    }

    open spec fn diff(self, other: Self) -> Self {
        self - other
    }

    open spec fn prod(self, other: Self) -> Self {
        self * other
    }

    open spec fn quot(self, other: Self) -> Self {
        self / other
    }

    open spec fn negation(self) -> Self {
        -self
    }

    open spec fn size(self) -> Self {
        if self < 0 as real {
            -self
        } else {
            self
        }
    }

    open spec fn nearest(self) -> Self {
        if self < 0 as real {
            -((-self + 1 as real / 2 as real).floor() as real)
        } else {
            (self + 1 as real / 2 as real).floor() as real
        }
    }

    open spec fn frac_part(self) -> Self {
        if self < 0 as real {
            self + (-self).floor() as real
        } else {
            self - self.floor() as real
        }
    }

    open spec fn root(self) -> Self {
        choose|r: real| is_real_root(self, r)
    }

    open spec fn below(self, other: Self) -> bool {
        self < other
    }

    open spec fn at_most(self, other: Self) -> bool {
        self <= other
    }

    open spec fn count(n: u64) -> Self {
        n as real
    }

    open spec fn whole(self) -> u64 {
        if self < 0 as real {
            0
        } else if self.floor() > u64::MAX {
            u64::MAX
        } else {
            self.floor() as u64
        }
    }

    open spec fn tiny() -> Self {
        1 as real / 4_503_599_627_370_496 as real
    }

    open spec fn faint() -> Self {
        1 as real / 1_000_000_000_000 as real
    }

    open spec fn slight() -> Self {
        1 as real / 1_000_000_000 as real
    }
}

impl Ordered for real {
    proof fn law_strict(a: Self, b: Self) {
    }

    proof fn law_chain(a: Self, b: Self, c: Self) {
    }

    proof fn law_compare(a: Self, b: Self) {
    }

    proof fn law_counts(n: u64, m: u64) {
    }

    proof fn law_ratios(n1: u64, d1: u64, n2: u64, d2: u64) {
        let (a, b, c, d) = (n1 as real, d1 as real, n2 as real, d2 as real);
        lemma_prod_of_counts(n1, d2);
        lemma_prod_of_counts(n2, d1);
        assert(a / b <= c / d) by (nonlinear_arith)
            requires
                a * d <= c * b,
                b > 0 as real,
                d > 0 as real,
        ;
    }

    proof fn law_positive_ratio(n: u64, d: u64) {
        lemma_quot_positive(n as real, d as real);
    }

    proof fn law_ratio_of_one(n: u64) {
        lemma_quot_undone(n as real, 1 as real);
    }

    proof fn law_diff(a: Self, b: Self) {
    }

    proof fn law_sum(a: Self, b: Self) {
    }

    proof fn law_prod(a: Self, b: Self) {
        if a >= 0 as real && b >= 0 as real {
            lemma_prod_not_negative(a, b);
        }
    }

    proof fn law_quot(a: Self, b: Self) {
        if a >= 0 as real && b > 0 as real {
            lemma_quot_not_negative(a, b);
            if b >= 1 as real {
                assert(a / b <= a) by (nonlinear_arith)
                    requires
                        a >= 0 as real,
                        b >= 1 as real,
                ;
            }
        }
    }

    proof fn law_one() {
    }

    proof fn law_monotone(a: Self, b: Self, c: Self) {
        if a >= b {
            if c >= 0 as real {
                lemma_prod_in_order(b, a, c);
            }
            if c > 0 as real {
                lemma_quot_in_order(b, a, c);
            }
            lemma_nearest_in_order(b, a);
        }
    }

    proof fn law_thresholds() {
    }

    proof fn law_size(a: Self) {
    }
}

impl Total for real {
    proof fn law_total(a: Self) {
    }

    proof fn law_equal(a: Self, b: Self) {
    }

    proof fn law_zero(a: Self) {
        assert(0 as real * a == 0 as real) by (nonlinear_arith);
        let r = (0 as real).root();
        assert(is_real_root(0 as real, 0 as real)) by {
            assert(0 as real * 0 as real == 0 as real) by (nonlinear_arith);
        }
        assert(r == 0 as real) by (nonlinear_arith)
            requires
                r >= 0 as real,
                r * r == 0 as real,
        ;
        if a > 0 as real {
            assert(0 as real / a == 0 as real) by (nonlinear_arith)
                requires
                    a > 0 as real,
            ;
        }
    }

    proof fn law_two() {
        lemma_quot_undone(1 as real, 2 as real);
    }

    proof fn law_unit(a: Self) {
        assert(a * 1 as real == a && 1 as real * a == a && a * -(1 as real) == -a)
            by (nonlinear_arith);
        if a > 0 as real {
            lemma_quot_undone(1 as real, a);
        }
    }

    proof fn law_opposite(a: Self, b: Self) {
    }

    proof fn law_negation(a: Self) {
    }
}

/// The integer part keeps the order.
proof fn lemma_floor_in_order(a: real, b: real)
    requires
        a <= b,
    ensures
        a.floor() <= b.floor(),
{
    let (n, m) = (a.floor(), b.floor());
    assert(n as real <= a && b < (m + 1) as real);
    assert((n as real) < (m + 1) as real);
}

/// Rounding keeps the order.
pub proof fn lemma_nearest_in_order(a: real, b: real)
    requires
        a <= b,
    ensures
        a.nearest() <= b.nearest(),
{
    let half = 1 as real / 2 as real;
    if b < 0 as real {
        lemma_floor_in_order(-b + half, -a + half);
    } else if a >= 0 as real {
        lemma_floor_in_order(a + half, b + half);
    } else {
        lemma_floor_in_order(0 as real, -a + half);
        lemma_floor_in_order(0 as real, b + half);
    }
}

/// Rounding moves a number by a half at most.
pub proof fn lemma_nearest_is_near(a: real)
    ensures
        -(1 as real) / 2 as real <= a.nearest() - a <= 1 as real / 2 as real,
{
    let half = 1 as real / 2 as real;
    if a < 0 as real {
        let n = (-a + half).floor();
        assert(n as real <= -a + half && -a + half < (n + 1) as real);
    } else {
        let n = (a + half).floor();
        assert(n as real <= a + half && a + half < (n + 1) as real);
    }
}

/// Numbers that are at least one apart stay apart when they are rounded.
pub proof fn lemma_nearest_keeps_apart(a: real, b: real)
    requires
        a + 1 as real <= b,
    ensures
        a.nearest() < b.nearest(),
{
    let half = 1 as real / 2 as real;
    if b < 0 as real {
        let (n, m) = ((-b + half).floor(), (-a + half).floor());
        assert(n as real <= -b + half && -a + half < (m + 1) as real);
        assert((n + 1) as real <= -a + half);
        assert((n as real) < m as real);
    } else if a >= 0 as real {
        let (n, m) = ((a + half).floor(), (b + half).floor());
        assert(n as real <= a + half && b + half < (m + 1) as real);
        assert((n as real) < m as real);
    } else {
        let (n, m) = ((-a + half).floor(), (b + half).floor());
        assert(-a + half < (n + 1) as real && b + half < (m + 1) as real);
        assert((n + m + 2) as real > 2 as real);
        lemma_floor_in_order(0 as real, -a + half);
        lemma_floor_in_order(0 as real, b + half);
    }
}

/// The product of integers is the same as of the real numbers that they are.
pub proof fn lemma_prod_of_counts(n: u64, m: u64)
    ensures
        (n as real) * (m as real) == (n * m) as real,
{
    lemma_prod_of_integers(n as int, m as int);
}

/// The product of integers is the same as of the real numbers that they are.
pub proof fn lemma_prod_of_integers(n: int, m: int)
    requires
        n >= 0,
    ensures
        (n as real) * (m as real) == (n * m) as real,
    decreases n,
{
    if n > 0 {
        lemma_prod_of_integers(n - 1, m);
        let (x, y) = ((n - 1) as real, m as real);
        assert((x + 1 as real) * y == x * y + y) by (nonlinear_arith);
        assert((n - 1) * m + m == n * m) by (nonlinear_arith);
    } else {
        assert(0 as real * (m as real) == 0 as real) by (nonlinear_arith);
        assert(0 * m == 0) by (nonlinear_arith);
    }
}

pub proof fn lemma_prod_not_negative(a: real, b: real)
    requires
        a >= 0 as real,
        b >= 0 as real,
    ensures
        a * b >= 0 as real,
{
    assert(a * b >= 0 as real) by (nonlinear_arith)
        requires
            a >= 0 as real,
            b >= 0 as real,
    ;
}

pub proof fn lemma_quot_not_negative(a: real, b: real)
    requires
        a >= 0 as real,
        b > 0 as real,
    ensures
        a / b >= 0 as real,
{
    assert(a / b >= 0 as real) by (nonlinear_arith)
        requires
            a >= 0 as real,
            b > 0 as real,
    ;
}

pub proof fn lemma_quot_positive(a: real, b: real)
    requires
        a > 0 as real,
        b > 0 as real,
    ensures
        a / b > 0 as real,
{
    assert(a / b > 0 as real) by (nonlinear_arith)
        requires
            a > 0 as real,
            b > 0 as real,
    ;
}

pub proof fn lemma_prod_in_order(a: real, b: real, c: real)
    requires
        a <= b,
        c >= 0 as real,
    ensures
        a * c <= b * c,
        c * a <= c * b,
{
    assert(a * c <= b * c && c * a <= c * b) by (nonlinear_arith)
        requires
            a <= b,
            c >= 0 as real,
    ;
}

pub proof fn lemma_quot_in_order(a: real, b: real, c: real)
    requires
        a <= b,
        c > 0 as real,
    ensures
        a / c <= b / c,
{
    assert(a / c <= b / c) by (nonlinear_arith)
        requires
            a <= b,
            c > 0 as real,
    ;
}

/// Dividing and multiplying by the same changes nothing.
pub proof fn lemma_quot_undone(a: real, b: real)
    requires
        b != 0 as real,
    ensures
        (a / b) * b == a,
        b * (a / b) == a,
        (a * b) / b == a,
        (b * a) / b == a,
{
    assert((a / b) * b == a && b * (a / b) == a && (a * b) / b == a && (b * a) / b == a)
        by (nonlinear_arith)
        requires
            b != 0 as real,
    ;
}

/// A common factor of dividend and divisor does not change the quotient.
pub proof fn lemma_factor_cancels(a: real, b: real, k: real)
    requires
        b != 0 as real,
        k != 0 as real,
    ensures
        k * b != 0 as real,
        (k * a) / (k * b) == a / b,
{
    assert(k * b != 0 as real && (k * a) / (k * b) == a / b) by (nonlinear_arith)
        requires
            b != 0 as real,
            k != 0 as real,
    ;
}

/// A factor of the dividend is one of the quotient.
pub proof fn lemma_factor_out(a: real, b: real, k: real)
    requires
        b != 0 as real,
    ensures
        (k * a) / b == k * (a / b),
{
    assert((k * a) / b == k * (a / b)) by (nonlinear_arith)
        requires
            b != 0 as real,
    ;
}

/// A ratio times its divisor.
pub proof fn lemma_ratio_undone(n: u64, d: u64)
    requires
        d > 0,
    ensures
        ratio::<real>(n, d) * (d as real) == n as real,
{
    lemma_quot_undone(n as real, d as real);
}

} // verus!
