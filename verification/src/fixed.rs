//! Fixed-point numbers: a sixty-four bit count of ten-millionths that stays at
//! the end of its range, some nine hundred thousand million either way, instead
//! of overflowing.
use vstd::arithmetic::div_mod::{lemma_div_is_ordered, lemma_fundamental_div_mod};
use vstd::prelude::*;

use crate::number::{Number, Ordered, Total, Value};
use crate::text;

verus! {

/// Ten-millionths in one.
pub const SCALE: i64 = 10_000_000;

/// A number of ten-millionths.
#[derive(Debug, Clone, Copy, PartialEq, Eq, Structural)]
pub struct Fixed {
    pub units: i64,
}

/// The number of `x` ten-millionths, or the nearer end of the range.
pub open spec fn capped(x: int) -> Fixed {
    if x > i64::MAX {
        Fixed { units: i64::MAX }
    } else if x < i64::MIN {
        Fixed { units: i64::MIN }
    } else {
        Fixed { units: x as i64 }
    }
}

/// The quotient rounded down; a division by zero goes to the end of the range
/// that the dividend's sign points to.
pub open spec fn quotient(a: int, b: int) -> int {
    if b > 0 {
        a / b
    } else if b < 0 {
        (-a) / (-b)
    } else if a > 0 {
        i64::MAX as int
    } else if a < 0 {
        i64::MIN as int
    } else {
        0
    }
}

/// `r` is the integer square root of `n`.
pub open spec fn is_root(n: int, r: int) -> bool {
    &&& r >= 0
    &&& r * r <= n
    &&& n < (r + 1) * (r + 1)
}

/// The integer square root.
pub open spec fn int_root(n: int) -> int {
    choose|r: int| is_root(n, r)
}

/// The first `places` decimal digits of the fraction `f / SCALE`.
pub open spec fn fraction_digits(f: int, places: nat) -> Seq<char>
    decreases places,
{
    if places == 0 {
        Seq::empty()
    } else {
        seq![text::digit((f * 10 / SCALE as int) as nat)] + fraction_digits(
            f * 10 % SCALE as int,
            (places - 1) as nat,
        )
    }
}

/// The units that the last of some decimal places counts; one where there are
/// more places than units.
pub open spec fn place_units(places: int) -> int
    decreases 7 - places,
{
    if places >= 7 {
        1
    } else {
        10 * place_units(places + 1)
    }
}

/// The nearest multiple of a step; of two that are equally near, the even one.
pub open spec fn nearest_multiple(m: int, step: int) -> int {
    let q = m / step;
    let twice = 2 * (m % step);
    if twice > step || (twice == step && q % 2 == 1) {
        (q + 1) * step
    } else {
        q * step
    }
}

/// A magnitude rounded to decimal places.
pub open spec fn to_places(m: int, places: int) -> int {
    nearest_multiple(m, place_units(places))
}

/// The value of a decimal digit.
pub open spec fn digit_value(c: char) -> Option<int> {
    if c == '0' {
        Some(0)
    } else if c == '1' {
        Some(1)
    } else if c == '2' {
        Some(2)
    } else if c == '3' {
        Some(3)
    } else if c == '4' {
        Some(4)
    } else if c == '5' {
        Some(5)
    } else if c == '6' {
        Some(6)
    } else if c == '7' {
        Some(7)
    } else if c == '8' {
        Some(8)
    } else if c == '9' {
        Some(9)
    } else {
        None
    }
}

/// One character of an unsigned numeral: `weight` is zero before the point, and
/// behind it the ten-millionths that the last digit counted.
pub open spec fn scan_step(units: int, weight: int, c: char) -> Option<(int, int)> {
    if c == '.' {
        if weight == 0 {
            Some((units, SCALE as int))
        } else {
            None
        }
    } else {
        match digit_value(c) {
            None => None,
            Some(d) => if weight == 0 {
                Some((capped(units * 10 + d * SCALE).units as int, 0))
            } else {
                Some(
                    (
                        capped(units + d * (weight / 10)).units as int,
                        if weight >= 10 {
                            weight / 10
                        } else {
                            1
                        },
                    ),
                )
            },
        }
    }
}

/// The characters of an unsigned numeral read from the left.
pub open spec fn scan(s: Seq<char>) -> Option<(int, int)>
    decreases s.len(),
{
    if s.len() == 0 {
        Some((0, 0))
    } else {
        match scan(s.drop_last()) {
            None => None,
            Some((units, weight)) => scan_step(units, weight, s.last()),
        }
    }
}

/// A numeral has digits and at most one point.
pub open spec fn unsigned_reading(s: Seq<char>) -> Option<Fixed> {
    if s.len() == 0 || (s.len() == 1 && s[0] == '.') {
        None
    } else {
        match scan(s) {
            None => None,
            Some((units, _)) => Some(capped(units)),
        }
    }
}

/// Where an exponent begins, or the length of the text.
pub open spec fn exponent_mark(s: Seq<char>) -> int
    decreases s.len(),
{
    if s.len() == 0 {
        0
    } else if s[0] == 'e' || s[0] == 'E' {
        0
    } else {
        1 + exponent_mark(s.skip(1))
    }
}

/// The largest exponent that is told from larger ones; everything is at the end
/// of the range, or zero, long before it.
pub const EXPONENT_LIMIT: i64 = 100;

/// The digits of an exponent, read from the left.
pub open spec fn exponent_digits(s: Seq<char>) -> Option<int>
    decreases s.len(),
{
    if s.len() == 0 {
        Some(0)
    } else {
        match (exponent_digits(s.drop_last()), digit_value(s.last())) {
            (Some(n), Some(d)) => Some(
                if 10 * n + d > EXPONENT_LIMIT {
                    EXPONENT_LIMIT as int
                } else {
                    10 * n + d
                },
            ),
            _ => None,
        }
    }
}

/// An exponent: a sign or none, and digits.
pub open spec fn exponent_of(s: Seq<char>) -> Option<int> {
    let signed = s.len() > 0 && (s[0] == '-' || s[0] == '+');
    let digits = if signed {
        s.skip(1)
    } else {
        s
    };
    if digits.len() == 0 {
        None
    } else {
        match exponent_digits(digits) {
            None => None,
            Some(n) => Some(
                if signed && s[0] == '-' {
                    -n
                } else {
                    n
                },
            ),
        }
    }
}

/// Units with the point moved to the right, or to the left for a negative
/// exponent.
pub open spec fn shifted(units: int, exponent: int) -> int
    decreases
            if exponent < 0 {
                -exponent
            } else {
                exponent
            },
{
    if exponent > 0 {
        shifted(capped(10 * units).units as int, exponent - 1)
    } else if exponent < 0 {
        shifted(units / 10, exponent + 1)
    } else {
        units
    }
}

/// A numeral without a sign, with an exponent or without.
pub open spec fn plain_reading(s: Seq<char>) -> Option<Fixed> {
    let mark = exponent_mark(s);
    if mark == s.len() {
        unsigned_reading(s)
    } else {
        match (unsigned_reading(s.take(mark)), exponent_of(s.skip(mark + 1))) {
            (Some(x), Some(e)) => Some(capped(shifted(x.units as int, e))),
            _ => None,
        }
    }
}

/// A text that a character spoils stays spoilt.
proof fn lemma_scan_spoilt(s: Seq<char>, n: int)
    requires
        0 <= n <= s.len(),
        scan(s.take(n)) is None,
    ensures
        scan(s) is None,
    decreases s.len() - n,
{
    if n < s.len() {
        assert(s.take(n + 1).drop_last() =~= s.take(n));
        lemma_scan_spoilt(s, n + 1);
    } else {
        assert(s.take(n) =~= s);
    }
}

/// An exponent that a character spoils stays spoilt.
proof fn lemma_exponent_spoilt(s: Seq<char>, n: int)
    requires
        0 <= n <= s.len(),
        exponent_digits(s.take(n)) is None,
    ensures
        exponent_digits(s) is None,
    decreases s.len() - n,
{
    if n < s.len() {
        assert(s.take(n + 1).drop_last() =~= s.take(n));
        lemma_exponent_spoilt(s, n + 1);
    } else {
        assert(s.take(n) =~= s);
    }
}

impl Fixed {
    /// `a / b` rounded down, for a positive `b`.
    fn floor_div(a: i128, b: i128) -> (r: i128)
        requires
            b > 0,
            -0x4000_0000_0000_0000_0000_0000_0000_0000 <= a
                <= 0x4000_0000_0000_0000_0000_0000_0000_0000,
        ensures
            r == a as int / b as int,
    {
        if a >= 0 {
            ((a as u128) / (b as u128)) as i128
        } else {
            let m: u128 = (-a) as u128;
            let q: u128 = m / (b as u128);
            let rem: u128 = m % (b as u128);
            proof {
                lemma_fundamental_div_mod(m as int, b as int);
                assert(q <= m) by (nonlinear_arith)
                    requires
                        q == m as int / b as int,
                        b > 0,
                ;
            }
            if rem == 0 {
                assert(a as int / b as int == -(q as int)) by (nonlinear_arith)
                    requires
                        -(a as int) == b * q,
                        b > 0,
                ;
                -(q as i128)
            } else {
                assert(a as int / b as int == -(q as int) - 1) by (nonlinear_arith)
                    requires
                        -(a as int) == b * q + rem,
                        0 < rem < b,
                        b > 0,
                ;
                -(q as i128) - 1
            }
        }
    }

    /// The number of `x` ten-millionths, or the nearer end of the range.
    fn cap(x: i128) -> (r: Fixed)
        ensures
            r == capped(x as int),
    {
        if x > i64::MAX as i128 {
            Fixed { units: i64::MAX }
        } else if x < i64::MIN as i128 {
            Fixed { units: i64::MIN }
        } else {
            Fixed { units: x as i64 }
        }
    }

    /// The value of a decimal digit.
    fn digit_of(c: char) -> (r: Option<i128>)
        ensures
            match r {
                None => digit_value(c) is None,
                Some(d) => digit_value(c) == Some(d as int) && 0 <= d <= 9,
            },
    {
        match c {
            '0' => Some(0),
            '1' => Some(1),
            '2' => Some(2),
            '3' => Some(3),
            '4' => Some(4),
            '5' => Some(5),
            '6' => Some(6),
            '7' => Some(7),
            '8' => Some(8),
            '9' => Some(9),
            _ => None,
        }
    }

    /// Reads a numeral without a sign.
    fn parse_unsigned(text: &str) -> (r: Option<Fixed>)
        ensures
            r == unsigned_reading(text@),
    {
        let n = text.unicode_len();
        if n == 0 {
            return None;
        }
        if n == 1 && text.get_char(0) == '.' {
            return None;
        }
        let mut units: i64 = 0;
        let mut weight: i64 = 0;
        let mut i: usize = 0;
        while i < n
            invariant
                n == text@.len(),
                i <= n,
                0 <= weight <= SCALE,
                scan(text@.take(i as int)) == Some((units as int, weight as int)),
            decreases n - i,
        {
            let c = text.get_char(i);
            assert(text@.take(i + 1).drop_last() =~= text@.take(i as int));
            assert(scan(text@.take(i + 1)) == scan_step(units as int, weight as int, c));
            if c == '.' {
                if weight != 0 {
                    proof {
                        lemma_scan_spoilt(text@, i + 1);
                    }
                    return None;
                }
                weight = SCALE;
            } else {
                match Fixed::digit_of(c) {
                    None => {
                        proof {
                            lemma_scan_spoilt(text@, i + 1);
                        }
                        return None;
                    },
                    Some(d) => {
                        if weight == 0 {
                            units = Fixed::cap((units as i128) * 10 + d * (SCALE as i128)).units;
                        } else {
                            let share: i64 = weight / 10;
                            assert(0 <= d * share <= 9 * SCALE) by (nonlinear_arith)
                                requires
                                    0 <= d <= 9,
                                    0 <= share <= SCALE,
                            ;
                            units = Fixed::cap((units as i128) + d * (share as i128)).units;
                            weight = if weight >= 10 {
                                share
                            } else {
                                1
                            };
                        }
                    },
                }
            }
            i += 1;
        }
        assert(text@.take(i as int) =~= text@);
        Some(Fixed { units })
    }

    /// Rounds a magnitude to decimal places.
    fn round_to(m: u64, places: u8) -> (r: u64)
        requires
            m <= 0x8000_0000_0000_0000,
        ensures
            r == to_places(m as int, places as int),
    {
        proof {
            reveal_with_fuel(place_units, 8);
        }
        let step: u64 = match places {
            0 => 10_000_000,
            1 => 1_000_000,
            2 => 100_000,
            3 => 10_000,
            4 => 1_000,
            5 => 100,
            6 => 10,
            _ => 1,
        };
        let q: u64 = m / step;
        let twice: u64 = 2 * (m % step);
        proof {
            lemma_fundamental_div_mod(m as int, step as int);
            assert(step * q == q * step) by (nonlinear_arith);
            assert((q + 1) * step == q * step + step) by (nonlinear_arith);
        }
        if twice > step || (twice == step && q % 2 == 1) {
            (q + 1) * step
        } else {
            q * step
        }
    }

    /// Reads an exponent.
    fn parse_exponent(text: &str) -> (r: Option<i64>)
        ensures
            match r {
                None => exponent_of(text@) is None,
                Some(e) => exponent_of(text@) == Some(e as int) && -EXPONENT_LIMIT <= e
                    <= EXPONENT_LIMIT,
            },
    {
        let n = text.unicode_len();
        let minus = n > 0 && text.get_char(0) == '-';
        let signed = minus || (n > 0 && text.get_char(0) == '+');
        let first: usize = if signed {
            1
        } else {
            0
        };
        let ghost digits = text@.skip(first as int);
        assert(text@.skip(0) =~= text@);
        if first >= n {
            return None;
        }
        let mut e: i64 = 0;
        let mut i: usize = first;
        assert(digits.take(0) =~= Seq::<char>::empty());
        while i < n
            invariant
                n == text@.len(),
                first <= i <= n,
                digits == text@.skip(first as int),
                exponent_digits(digits) is None ==> exponent_of(text@) is None,
                0 <= e <= EXPONENT_LIMIT,
                exponent_digits(digits.take(i - first)) == Some(e as int),
            decreases n - i,
        {
            assert(digits.take(i + 1 - first).drop_last() =~= digits.take(i - first));
            match Fixed::digit_of(text.get_char(i)) {
                None => {
                    proof {
                        lemma_exponent_spoilt(digits, i + 1 - first);
                    }
                    return None;
                },
                Some(d) => {
                    let next: i64 = 10 * e + d as i64;
                    e = if next > EXPONENT_LIMIT {
                        EXPONENT_LIMIT
                    } else {
                        next
                    };
                },
            }
            i += 1;
        }
        assert(digits.take(i - first) =~= digits);
        if minus {
            Some(-e)
        } else {
            Some(e)
        }
    }

    /// Moves the point.
    fn shift(x: Fixed, exponent: i64) -> (r: Fixed)
        requires
            -EXPONENT_LIMIT <= exponent <= EXPONENT_LIMIT,
        ensures
            r == capped(shifted(x.units as int, exponent as int)),
    {
        let mut units: i64 = x.units;
        let mut e: i64 = exponent;
        while e != 0
            invariant
                -EXPONENT_LIMIT <= e <= EXPONENT_LIMIT,
                shifted(x.units as int, exponent as int) == shifted(units as int, e as int),
            decreases
                    if e < 0 {
                        -e
                    } else {
                        e as int
                    },
        {
            if e > 0 {
                units = Fixed::cap(10 * (units as i128)).units;
                e = e - 1;
            } else {
                units = Fixed::floor_div(units as i128, 10) as i64;
                e = e + 1;
            }
        }
        Fixed { units }
    }

    /// Reads a numeral without a sign, with an exponent or without.
    fn parse_plain(text: &str) -> (r: Option<Fixed>)
        ensures
            r == plain_reading(text@),
    {
        let n = text.unicode_len();
        let mut mark: usize = 0;
        assert(text@.skip(0) =~= text@);
        while mark < n && text.get_char(mark) != 'e' && text.get_char(mark) != 'E'
            invariant
                n == text@.len(),
                mark <= n,
                exponent_mark(text@) == mark + exponent_mark(text@.skip(mark as int)),
            decreases n - mark,
        {
            assert(text@.skip(mark as int).skip(1) =~= text@.skip(mark + 1));
            mark += 1;
        }
        if mark == n {
            return Fixed::parse_unsigned(text);
        }
        let mantissa = text.substring_char(0, mark);
        let exponent = text.substring_char(mark + 1, n);
        assert(mantissa@ =~= text@.take(mark as int));
        assert(exponent@ =~= text@.skip(mark + 1));
        match (Fixed::parse_unsigned(mantissa), Fixed::parse_exponent(exponent)) {
            (Some(x), Some(e)) => Some(Fixed::shift(x, e)),
            _ => None,
        }
    }

    /// The integer square root.
    fn isqrt(n: u128) -> (r: u128)
        requires
            n < 0x1_0000_0000_0000_0000_0000_0000,
        ensures
            is_root(n as int, r as int),
    {
        let mut lo: u128 = 0;
        let mut hi: u128 = 0x1_0000_0000_0000;
        assert(0x1_0000_0000_0000int * 0x1_0000_0000_0000 == 0x1_0000_0000_0000_0000_0000_0000);
        while hi - lo > 1
            invariant
                lo < hi <= 0x1_0000_0000_0000,
                lo * lo <= n,
                n < hi * hi,
            decreases hi - lo,
        {
            let mid = lo + (hi - lo) / 2;
            assert(mid * mid <= 0x1_0000_0000_0000 * 0x1_0000_0000_0000) by (nonlinear_arith)
                requires
                    mid <= 0x1_0000_0000_0000,
            ;
            if mid * mid <= n {
                lo = mid;
            } else {
                hi = mid;
            }
        }
        assert(hi == lo + 1);
        lo
    }
}

/// The integer square root is unique.
proof fn lemma_root_unique(n: int, r: int, s: int)
    requires
        is_root(n, r),
        is_root(n, s),
    ensures
        r == s,
{
    if r < s {
        assert((r + 1) * (r + 1) <= s * s) by (nonlinear_arith)
            requires
                0 <= r,
                r + 1 <= s,
        ;
    }
    if s < r {
        assert((s + 1) * (s + 1) <= r * r) by (nonlinear_arith)
            requires
                0 <= s,
                s + 1 <= r,
        ;
    }
}

impl Value for Fixed {
    open spec fn sum(self, other: Self) -> Self {
        capped(self.units + other.units)
    }

    open spec fn diff(self, other: Self) -> Self {
        capped(self.units - other.units)
    }

    open spec fn prod(self, other: Self) -> Self {
        capped((self.units * other.units) / SCALE as int)
    }

    open spec fn quot(self, other: Self) -> Self {
        capped(quotient(self.units * SCALE, other.units as int))
    }

    open spec fn negation(self) -> Self {
        capped(-self.units)
    }

    open spec fn size(self) -> Self {
        if self.units < 0 {
            capped(-self.units)
        } else {
            self
        }
    }

    open spec fn nearest(self) -> Self {
        if self.units < 0 {
            capped(-((-self.units + SCALE / 2) / SCALE as int) * SCALE)
        } else {
            capped(((self.units + SCALE / 2) / SCALE as int) * SCALE)
        }
    }

    open spec fn frac_part(self) -> Self {
        if self.units < 0 {
            capped(-((-self.units) % SCALE as int))
        } else {
            capped(self.units as int % SCALE as int)
        }
    }

    open spec fn root(self) -> Self {
        if self.units < 0 {
            Fixed { units: 0 }
        } else {
            capped(int_root(self.units * SCALE))
        }
    }

    open spec fn below(self, other: Self) -> bool {
        self.units < other.units
    }

    open spec fn at_most(self, other: Self) -> bool {
        self.units <= other.units
    }

    open spec fn count(n: u64) -> Self {
        capped(n * SCALE)
    }

    open spec fn whole(self) -> u64 {
        if self.units < 0 {
            0
        } else {
            (self.units as int / SCALE as int) as u64
        }
    }

    open spec fn top() -> Self {
        Fixed { units: i64::MAX }
    }

    open spec fn bottom() -> Self {
        Fixed { units: i64::MIN }
    }

    open spec fn tiny() -> Self {
        Fixed { units: 1 }
    }

    open spec fn faint() -> Self {
        Fixed { units: 1 }
    }

    open spec fn slight() -> Self {
        Fixed { units: 1 }
    }

    open spec fn digits(self, places: u8) -> Seq<char> {
        let magnitude = to_places(
            if self.units < 0 {
                -self.units
            } else {
                self.units as int
            },
            places as int,
        );
        let sign = if self.units < 0 {
            "-"@
        } else {
            ""@
        };
        let point = if places == 0 {
            ""@
        } else {
            "."@
        };
        sign + text::numeral((magnitude / SCALE as int) as nat) + point + fraction_digits(
            magnitude % SCALE as int,
            places as nat,
        )
    }

    open spec fn reading(text: Seq<char>) -> Option<Self> {
        if text.len() > 0 && text[0] == '-' {
            match plain_reading(text.skip(1)) {
                None => None,
                Some(x) => Some(x.negation()),
            }
        } else if text.len() > 0 && text[0] == '+' {
            plain_reading(text.skip(1))
        } else {
            plain_reading(text)
        }
    }
}

impl Number for Fixed {
    fn plus(self, other: Self) -> (r: Self) {
        Fixed::cap(self.units as i128 + other.units as i128)
    }

    fn minus(self, other: Self) -> (r: Self) {
        Fixed::cap(self.units as i128 - other.units as i128)
    }

    fn times(self, other: Self) -> (r: Self) {
        let a = self.units as i128;
        let b = other.units as i128;
        assert(-0x4000_0000_0000_0000_0000_0000_0000_0000 <= a * b
            <= 0x4000_0000_0000_0000_0000_0000_0000_0000) by (nonlinear_arith)
            requires
                -0x8000_0000_0000_0000 <= a <= 0x8000_0000_0000_0000,
                -0x8000_0000_0000_0000 <= b <= 0x8000_0000_0000_0000,
        ;
        Fixed::cap(Fixed::floor_div(a * b, SCALE as i128))
    }

    fn over(self, other: Self) -> (r: Self) {
        let a = self.units as i128 * SCALE as i128;
        let b = other.units as i128;
        assert(-0x4000_0000_0000_0000_0000_0000_0000_0000 <= a
            <= 0x4000_0000_0000_0000_0000_0000_0000_0000) by (nonlinear_arith)
            requires
                a == self.units * SCALE,
                -0x8000_0000_0000_0000 <= self.units <= 0x8000_0000_0000_0000,
                SCALE == 10_000_000,
        ;
        if b > 0 {
            Fixed::cap(Fixed::floor_div(a, b))
        } else if b < 0 {
            Fixed::cap(Fixed::floor_div(-a, -b))
        } else if a > 0 {
            Fixed { units: i64::MAX }
        } else if a < 0 {
            Fixed { units: i64::MIN }
        } else {
            Fixed { units: 0 }
        }
    }

    fn negate(self) -> (r: Self) {
        Fixed::cap(-(self.units as i128))
    }

    fn abs(self) -> (r: Self) {
        if self.units < 0 {
            Fixed::cap(-(self.units as i128))
        } else {
            self
        }
    }

    fn round(self) -> (r: Self) {
        if self.units < 0 {
            let m = -(self.units as i128);
            Fixed::cap(
                -(Fixed::floor_div(m + 5_000_000, SCALE as i128)) * SCALE as i128,
            )
        } else {
            Fixed::cap(
                Fixed::floor_div(self.units as i128 + 5_000_000, SCALE as i128) * SCALE as i128,
            )
        }
    }

    fn fract(self) -> (r: Self) {
        if self.units < 0 {
            let m = (-(self.units as i128)) as u128;
            Fixed::cap(-((m % SCALE as u128) as i128))
        } else {
            Fixed::cap((self.units as u128 % SCALE as u128) as i128)
        }
    }

    fn sqrt(self) -> (r: Self) {
        if self.units < 0 {
            Fixed { units: 0 }
        } else {
            let n = self.units as u128 * SCALE as u128;
            let r = Fixed::isqrt(n);
            proof {
                let s = int_root(n as int);
                assert(is_root(n as int, r as int));
                lemma_root_unique(n as int, r as int, s);
                assert(r <= n + 1) by (nonlinear_arith)
                    requires
                        r * r <= n,
                ;
            }
            Fixed::cap(r as i128)
        }
    }

    fn lt(self, other: Self) -> (r: bool) {
        self.units < other.units
    }

    fn le(self, other: Self) -> (r: bool) {
        self.units <= other.units
    }

    fn from_u64(n: u64) -> (r: Self) {
        Fixed::cap(n as i128 * SCALE as i128)
    }

    fn to_u64(self) -> (r: u64) {
        if self.units < 0 {
            0
        } else {
            self.units as u64 / SCALE as u64
        }
    }

    fn infinity() -> (r: Self) {
        Fixed { units: i64::MAX }
    }

    fn neg_infinity() -> (r: Self) {
        Fixed { units: i64::MIN }
    }

    fn epsilon() -> (r: Self) {
        Fixed { units: 1 }
    }

    fn trillionth() -> (r: Self) {
        Fixed { units: 1 }
    }

    fn billionth() -> (r: Self) {
        Fixed { units: 1 }
    }

    fn to_text(self, places: u8) -> (r: String) {
        let mut r = String::new();
        let m = Fixed::round_to(
            if self.units < 0 {
                (-(self.units as i128)) as u64
            } else {
                self.units as u64
            },
            places,
        );
        if self.units < 0 {
            r.append("-");
        }
        proof {
            reveal_strlit("");
        }
        let whole: u64 = m / SCALE as u64;
        r.append(text::decimal(whole).as_str());
        if places != 0 {
            r.append(".");
        }
        let ghost head = r@;
        assert(self.digits(places) =~= head + fraction_digits(
            m as int % SCALE as int,
            places as nat,
        ));
        let mut f: u64 = m % SCALE as u64;
        let mut left: u8 = places;
        while left > 0
            invariant
                f < SCALE,
                self.digits(places) == r@ + fraction_digits(f as int, left as nat),
            decreases left,
        {
            let ghost before = r@;
            let d: u64 = f * 10 / SCALE as u64;
            r.append(text::digit_text(d));
            assert(before + fraction_digits(f as int, left as nat) =~= r@ + fraction_digits(
                f * 10 % SCALE as int,
                (left - 1) as nat,
            ));
            f = f * 10 % SCALE as u64;
            left = left - 1;
        }
        assert(r@ =~= self.digits(places));
        r
    }

    fn parse(text: &str) -> (r: Option<Self>) {
        let n = text.unicode_len();
        if n > 0 && text.get_char(0) == '-' {
            let rest = text.substring_char(1, n);
            assert(rest@ =~= text@.skip(1));
            match Fixed::parse_plain(rest) {
                None => None,
                Some(x) => Some(x.negate()),
            }
        } else if n > 0 && text.get_char(0) == '+' {
            let rest = text.substring_char(1, n);
            assert(rest@ =~= text@.skip(1));
            Fixed::parse_plain(rest)
        } else {
            Fixed::parse_plain(text)
        }
    }
}

impl Ordered for Fixed {
    proof fn law_strict(a: Self, b: Self) {
    }

    proof fn law_chain(a: Self, b: Self, c: Self) {
    }

    proof fn law_compare(a: Self, b: Self) {
    }

    proof fn law_counts(n: u64, m: u64) {
        if n <= m {
            lemma_capped_in_order(n * SCALE, m * SCALE);
        }
    }

    proof fn law_ratios(n1: u64, d1: u64, n2: u64, d2: u64) {
        lemma_ratio(n1 as int, d1 as int);
        lemma_ratio(n2 as int, d2 as int);
        let q1 = (n1 * SCALE) / d1 as int;
        let q2 = (n2 * SCALE) / d2 as int;
        lemma_fundamental_div_mod(n1 * SCALE, d1 as int);
        lemma_fundamental_div_mod(n2 * SCALE, d2 as int);
        assert(q1 <= q2) by (nonlinear_arith)
            requires
                n1 * SCALE == d1 * q1 + (n1 * SCALE) % d1 as int,
                0 <= (n1 * SCALE) % d1 as int,
                n2 * SCALE == d2 * q2 + (n2 * SCALE) % d2 as int,
                ((n2 * SCALE) % d2 as int) < d2,
                n1 * d2 <= n2 * d1,
                0 < d1,
                0 < d2,
        {
            assert(q1 * d1 * d2 <= n1 * SCALE * d2);
            assert(n1 * SCALE * d2 <= n2 * SCALE * d1);
            assert(n2 * SCALE * d1 < (q2 + 1) * d2 * d1);
            assert(q1 * (d1 * d2) < (q2 + 1) * (d1 * d2));
        }
    }

    proof fn law_positive_ratio(n: u64, d: u64) {
        lemma_ratio(n as int, d as int);
        lemma_div_is_ordered(d as int, n * SCALE, d as int);
        vstd::arithmetic::div_mod::lemma_div_by_self(d as int);
    }

    proof fn law_ratio_of_one(n: u64) {
        lemma_ratio(n as int, 1);
    }

    proof fn law_diff(a: Self, b: Self) {
    }

    proof fn law_sum(a: Self, b: Self) {
    }

    proof fn law_prod(a: Self, b: Self) {
        if a.units >= 0 && b.units >= 0 {
            assert(a.units * b.units >= 0) by (nonlinear_arith)
                requires
                    a.units >= 0,
                    b.units >= 0,
            ;
        }
    }

    proof fn law_quot(a: Self, b: Self) {
        if a.units >= 0 && b.units > 0 {
            let n = a.units * SCALE;
            assert(n / b.units as int >= 0) by (nonlinear_arith)
                requires
                    n >= 0,
                    b.units > 0,
            ;
            if b.units >= SCALE {
                assert(n / b.units as int <= a.units) by (nonlinear_arith)
                    requires
                        n == a.units * SCALE,
                        a.units >= 0,
                        b.units >= SCALE,
                        SCALE > 0,
                ;
            }
        }
    }

    proof fn law_one() {
    }

    proof fn law_monotone(a: Self, b: Self, c: Self) {
        if !a.below(b) {
            lemma_capped_in_order(c.units + b.units, c.units + a.units);
            lemma_capped_in_order(c.units - a.units, c.units - b.units);
            lemma_capped_in_order(b.units - c.units, a.units - c.units);
            if c.units >= 0 {
                lemma_prod_in_order(b, a, c);
            }
            if c.units > 0 {
                lemma_quot_in_order(b, a, c);
            }
            lemma_nearest_in_order(b, a);
        }
    }

    proof fn law_thresholds() {
    }

    proof fn law_size(a: Self) {
    }
}

impl Total for Fixed {
    proof fn law_total(a: Self) {
    }

    proof fn law_equal(a: Self, b: Self) {
    }

    proof fn law_zero(a: Self) {
        assert(0 * a.units == 0) by (nonlinear_arith);
        assert(is_root(0, 0));
        lemma_root_unique(0, 0, int_root(0));
        if a.units > 0 {
            assert(0int / a.units as int == 0) by (nonlinear_arith)
                requires
                    a.units > 0,
            ;
        }
    }

    proof fn law_two() {
        lemma_ratio(1, 2);
        let half = Fixed::count(1).quot(Fixed::count(2));
        assert(half.units == 5_000_000);
        assert((half.units * (2 * SCALE)) / SCALE as int == SCALE) by (nonlinear_arith)
            requires
                half.units == 5_000_000,
                SCALE == 10_000_000,
        ;
    }

    proof fn law_unit(a: Self) {
        let (u, s) = (a.units as int, SCALE as int);
        assert(u * s == s * u && u * -s == -(u * s)) by (nonlinear_arith);
        assert((u * s) / s == u && (-(u * s)) / s == -u) by (nonlinear_arith)
            requires
                s == 10_000_000,
        ;
        if u > 0 {
            assert((u * s) / u == s) by (nonlinear_arith)
                requires
                    u > 0,
            ;
        }
    }

    proof fn law_opposite(a: Self, b: Self) {
    }

    proof fn law_negation(a: Self) {
    }
}

/// The ends of the range keep the order.
proof fn lemma_capped_in_order(x: int, y: int)
    requires
        x <= y,
    ensures
        capped(x).units <= capped(y).units,
{
}

/// Scaling by what is not negative keeps the order.
proof fn lemma_prod_in_order(a: Fixed, b: Fixed, c: Fixed)
    requires
        a.units <= b.units,
        c.units >= 0,
    ensures
        a.prod(c).units <= b.prod(c).units,
        c.prod(a).units <= c.prod(b).units,
{
    let x = a.units * c.units;
    let y = b.units * c.units;
    assert(x <= y) by (nonlinear_arith)
        requires
            x == a.units * c.units,
            y == b.units * c.units,
            a.units <= b.units,
            c.units >= 0,
    ;
    lemma_div_is_ordered(x, y, SCALE as int);
    lemma_capped_in_order(x / SCALE as int, y / SCALE as int);
    assert(c.units * a.units == x && c.units * b.units == y) by (nonlinear_arith)
        requires
            x == a.units * c.units,
            y == b.units * c.units,
    ;
}

/// Dividing by what is positive keeps the order.
proof fn lemma_quot_in_order(a: Fixed, b: Fixed, c: Fixed)
    requires
        a.units <= b.units,
        c.units > 0,
    ensures
        a.quot(c).units <= b.quot(c).units,
{
    let x = a.units * SCALE;
    let y = b.units * SCALE;
    lemma_div_is_ordered(x, y, c.units as int);
    lemma_capped_in_order(x / c.units as int, y / c.units as int);
}

/// Rounding keeps the order.
proof fn lemma_nearest_in_order(a: Fixed, b: Fixed)
    requires
        a.units <= b.units,
    ensures
        a.nearest().units <= b.nearest().units,
{
    let half = (SCALE / 2) as int;
    let s = SCALE as int;
    if b.units < 0 {
        lemma_div_is_ordered(-b.units + half, -a.units + half, s);
        lemma_capped_in_order(-((-a.units + half) / s) * s, -((-b.units + half) / s) * s);
    } else if a.units >= 0 {
        lemma_div_is_ordered(a.units + half, b.units + half, s);
        lemma_capped_in_order(((a.units + half) / s) * s, ((b.units + half) / s) * s);
    } else {
        lemma_div_is_ordered(0, -a.units + half, s);
        lemma_div_is_ordered(0, b.units + half, s);
        lemma_capped_in_order(-((-a.units + half) / s) * s, 0);
        lemma_capped_in_order(0, ((b.units + half) / s) * s);
    }
}

/// The ratio of two small integers in ten-millionths.
proof fn lemma_ratio(n: int, d: int)
    requires
        0 <= n <= 1_000_000,
        0 < d <= 1_000_000,
    ensures
        Fixed::count(n as u64).quot(Fixed::count(d as u64)).units == (n * SCALE) / d,
{
    let x = n * SCALE;
    assert(x * SCALE == SCALE * x) by (nonlinear_arith);
    lemma_common_factor(x, d);
    assert(0 <= x / d <= x) by (nonlinear_arith)
        requires
            0 <= x,
            0 < d,
    ;
}

/// A common factor of dividend and divisor does not change the quotient.
proof fn lemma_common_factor(x: int, d: int)
    requires
        0 <= x,
        0 < d,
    ensures
        (x * SCALE) / (d * SCALE) == x / d,
{
    vstd::arithmetic::div_mod::lemma_div_multiples_vanish_quotient(SCALE as int, x, d);
    assert(SCALE * x == x * SCALE) by (nonlinear_arith);
    assert(SCALE * d == d * SCALE) by (nonlinear_arith);
}

/// Dividing by a whole number rounds the units down.
pub proof fn lemma_quot_by_count(a: Fixed, n: u64)
    requires
        a.units >= 0,
        0 < n * SCALE <= i64::MAX,
    ensures
        a.quot(Fixed::count(n)).units == a.units as int / n as int,
{
    let (u, m) = (a.units as int, n as int);
    lemma_common_factor(u, m);
    assert(0 <= u / m <= u) by (nonlinear_arith)
        requires
            0 <= u,
            0 < m,
    ;
}

/// Multiplying by a whole number is exact.
pub proof fn lemma_prod_by_count(a: Fixed, n: u64)
    requires
        0 <= n * SCALE <= i64::MAX,
    ensures
        a.prod(Fixed::count(n)) == capped(a.units * n),
        Fixed::count(n).prod(a) == capped(a.units * n),
{
    let (u, m, s) = (a.units as int, n as int, SCALE as int);
    assert(u * (m * s) == (u * m) * s && (m * s) * u == (u * m) * s) by (nonlinear_arith);
    assert(((u * m) * s) / s == u * m) by (nonlinear_arith)
        requires
            s == 10_000_000,
    ;
}

/// What rounding down loses is less than one unit, taken `k` times less than `k`.
pub proof fn lemma_floor_of_multiple(x: int, y: int, n: int, k: int, gap: int)
    requires
        n > 0,
        k >= 1,
        0 <= y - k * x <= gap,
    ensures
        0 <= y / n - k * (x / n),
        n * (y / n - k * (x / n)) <= gap + k * (n - 1),
{
    let (p, q) = (x / n, y / n);
    lemma_fundamental_div_mod(x, n);
    lemma_fundamental_div_mod(y, n);
    let (r, t) = (x % n, y % n);
    assert(n * (q - k * p) == (y - k * x) + k * r - t) by (nonlinear_arith)
        requires
            x == n * p + r,
            y == n * q + t,
    ;
    assert(k * r <= k * (n - 1) && 0 <= k * r) by (nonlinear_arith)
        requires
            0 <= r <= n - 1,
            k >= 1,
    ;
    assert(q - k * p >= 0) by (nonlinear_arith)
        requires
            n * (q - k * p) >= -t,
            0 <= t < n,
            n > 0,
    ;
}

} // verus!
