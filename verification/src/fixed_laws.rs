//! What fixed-point numbers are for: how near their results are to the exact ones, and
//! how they are written and read.
use vstd::prelude::*;

use crate::fixed::{digit_value, exponent_digits, exponent_mark, exponent_of, fraction_digits};
use crate::fixed::{int_root, is_root, place_units, plain_reading, scan, scan_step, shifted};
use crate::fixed::{to_places, unsigned_reading, Fixed, SCALE};
use crate::number::Value;
use crate::text::{digit, numeral};

verus! {

// Arithmetic
/// Whether a count of ten-millionths can be told.
pub open spec fn can_be_told(x: int) -> bool {
    -0x8000_0000_0000_0000 <= x <= 0x7fff_ffff_ffff_ffff
}

/// Sums and differences are exact; beyond the range they stay at its end.
pub proof fn law_fixed_sums_are_exact(a: Fixed, b: Fixed)
    ensures
        can_be_told(a.units + b.units) ==> a.sum(b).units == a.units + b.units,
        can_be_told(a.units - b.units) ==> a.diff(b).units == a.units - b.units,
        a.units + b.units > 0x7fff_ffff_ffff_ffff ==> a.sum(b) == Fixed::top(),
        a.units + b.units < -0x8000_0000_0000_0000 ==> a.sum(b) == Fixed::bottom(),
        a.units - b.units > 0x7fff_ffff_ffff_ffff ==> a.diff(b) == Fixed::top(),
        a.units - b.units < -0x8000_0000_0000_0000 ==> a.diff(b) == Fixed::bottom(),
        Fixed::top().units == 0x7fff_ffff_ffff_ffff,
        Fixed::bottom().units == -0x8000_0000_0000_0000,
{
}

/// A product is the exact one rounded down to a ten-millionth.
pub proof fn law_fixed_products_round_down(a: Fixed, b: Fixed)
    ensures
        can_be_told(a.units * b.units / 10_000_000) ==> {
            let p = a.prod(b).units;
            p * 10_000_000 <= a.units * b.units < (p + 1) * 10_000_000
        },
        a.prod(b) == b.prod(a),
{
    assert(a.units * b.units == b.units * a.units) by (nonlinear_arith);
}

/// A quotient is the exact one rounded down to a ten-millionth; by zero it is the end
/// of the range on the dividend's side.
pub proof fn law_fixed_quotients_round_down(a: Fixed, b: Fixed)
    ensures
        b.units > 0 && can_be_told(a.units * 10_000_000 / b.units as int) ==> {
            let q = a.quot(b).units;
            q * b.units <= a.units * 10_000_000 < (q + 1) * b.units
        },
        b.units < 0 && can_be_told((-a.units * 10_000_000) / (-b.units)) ==> {
            let q = a.quot(b).units;
            q * (-b.units) <= -a.units * 10_000_000 < (q + 1) * (-b.units)
        },
        b.units == 0 && a.units > 0 ==> a.quot(b) == Fixed::top(),
        b.units == 0 && a.units < 0 ==> a.quot(b) == Fixed::bottom(),
        b.units == 0 && a.units == 0 ==> a.quot(b).units == 0,
{
    let n = a.units * 10_000_000;
    if b.units > 0 {
        lemma_rounded_down(n, b.units as int);
    }
    if b.units < 0 {
        assert(-(a.units * 10_000_000) == -a.units * 10_000_000);
        lemma_rounded_down(-n, -b.units);
    }
}

proof fn lemma_rounded_down(a: int, b: int)
    requires
        b > 0,
    ensures
        a / b * b <= a < (a / b + 1) * b,
{
    assert(a / b * b <= a < (a / b + 1) * b) by (nonlinear_arith)
        requires
            b > 0,
    ;
}

/// The nearest whole number is whole and at most half away; of two that are equally near
/// it is the one farther from zero.
pub proof fn law_fixed_nearest_is_near(x: Fixed)
    requires
        -9_000_000_000_000_000_000 <= x.units <= 9_000_000_000_000_000_000,
    ensures
        ({
            let n = x.nearest().units;
            &&& n % 10_000_000 == 0
            &&& 2 * (n - x.units) <= 10_000_000 && 2 * (x.units - n) <= 10_000_000
            &&& x.units >= 0 ==> 2 * (x.units - n) < 10_000_000
            &&& x.units < 0 ==> 2 * (n - x.units) < 10_000_000
        }),
{
}

/// A number is its whole part and its fraction, which have its sign; the fraction is less
/// than one.
pub proof fn law_fixed_fraction_is_the_rest(x: Fixed)
    ensures
        ({
            let f = x.frac_part().units;
            &&& (x.units - f) % 10_000_000 == 0
            &&& x.units >= 0 ==> 0 <= f < 10_000_000
            &&& x.units < 0 ==> -10_000_000 < f <= 0
        }),
        x.units >= 0 ==> {
            let w = x.whole();
            w * 10_000_000 <= x.units < (w + 1) * 10_000_000
        },
        x.units < 0 ==> x.whole() == 0,
{
}

/// A root is the largest number whose square is not over the number it is taken of; of a
/// negative number it is zero.
pub proof fn law_fixed_root_is_the_largest(x: Fixed)
    ensures
        x.units < 0 ==> x.root().units == 0,
        x.units >= 0 ==> {
            let r = x.root().units;
            r >= 0 && r * r <= x.units * 10_000_000 < (r + 1) * (r + 1)
        },
{
    if x.units >= 0 {
        let n = x.units * 10_000_000;
        let w = lemma_root_exists(n as nat);
        assert(is_root(n, w));
        let r = int_root(n);
        assert(is_root(n, r));
        assert(r <= 0x7fff_ffff_ffff_ffff) by (nonlinear_arith)
            requires
                r >= 0,
                r * r <= n,
                n <= 0x7fff_ffff_ffff_ffff * 10_000_000,
        ;
    }
}

proof fn lemma_root_exists(n: nat) -> (r: int)
    ensures
        is_root(n as int, r),
    decreases n,
{
    if n == 0 {
        assert(0int * 0 == 0 && (0int + 1) * (0 + 1) == 1) by (nonlinear_arith);
        0
    } else {
        let r = lemma_root_exists((n - 1) as nat);
        if (r + 1) * (r + 1) <= n {
            assert(n < (r + 1 + 1) * (r + 1 + 1)) by (nonlinear_arith)
                requires
                    n - 1 < (r + 1) * (r + 1),
                    r >= 0,
            ;
            r + 1
        } else {
            r
        }
    }
}

/// The thresholds under which a number counts as nothing are the least positive number.
pub proof fn law_fixed_thresholds_are_least(x: Fixed)
    ensures
        x.units > 0 ==> Fixed::tiny().at_most(x) && Fixed::faint().at_most(x)
            && Fixed::slight().at_most(x),
        Fixed::count(0).below(Fixed::tiny()) && Fixed::count(0).below(Fixed::faint()),
        Fixed::count(0).below(Fixed::slight()),
{
}

// Rounding to places
/// The last of some decimal places counts ten times what the one after it counts, and the
/// seventh counts one.
pub proof fn law_places_count_tenfold(places: int)
    requires
        0 <= places,
    ensures
        places < 7 ==> place_units(places) == 10 * place_units(places + 1),
        places >= 7 ==> place_units(places) == 1,
        place_units(0) == 10_000_000,
        place_units(places) > 0,
        10_000_000int % place_units(places) == 0,
{
    reveal_with_fuel(place_units, 9);
    assert(place_units(7) == 1 && place_units(6) == 10 && place_units(5) == 100);
    assert(place_units(4) == 1000 && place_units(3) == 10_000 && place_units(2) == 100_000);
    assert(place_units(1) == 1_000_000 && place_units(0) == 10_000_000);
    assert(places == 0 || places == 1 || places == 2 || places == 3 || places == 4 || places == 5
        || places == 6 || places >= 7);
}

/// A magnitude rounded to places is a multiple of what the last of them counts, at most
/// half of that away, and the even one of two that are equally near.
pub proof fn law_places_round_to_even(m: int, places: int)
    requires
        0 <= m,
        0 <= places,
    ensures
        ({
            let (r, p) = (to_places(m, places), place_units(places));
            &&& r % p == 0
            &&& 2 * (r - m) <= p && 2 * (m - r) <= p
            &&& 2 * (r - m) == p || 2 * (m - r) == p ==> r / p % 2 == 0
            &&& r >= 0
        }),
        places >= 7 ==> to_places(m, places) == m,
{
    law_places_count_tenfold(places);
    let p = place_units(places);
    let (q, rest) = (m / p, m % p);
    assert(m == q * p + rest && 0 <= rest < p && q >= 0) by (nonlinear_arith)
        requires
            q == m / p,
            rest == m % p,
            p > 0,
            m >= 0,
    ;
    assert((q + 1) * p == q * p + p) by (nonlinear_arith);
    assert((q * p) % p == 0 && ((q + 1) * p) % p == 0 && (q * p) / p == q && ((q + 1) * p) / p == q
        + 1 && q * p >= 0) by (nonlinear_arith)
        requires
            p > 0,
            q >= 0,
    ;
}

// Texts
/// Digits are worth what they say.
proof fn lemma_digit_value(d: nat)
    requires
        d < 10,
    ensures
        digit_value(digit(d)) == Some(d as int),
        digit(d) != '.' && digit(d) != '-' && digit(d) != '+',
        digit(d) != 'e' && digit(d) != 'E',
{
}

/// A numeral is read as its number.
proof fn lemma_numeral_is_scanned(n: nat)
    requires
        n * SCALE <= i64::MAX,
    ensures
        scan(numeral(n)) == Some((n * SCALE, 0int)),
        numeral(n).len() > 0,
        forall|i: int|
            0 <= i < numeral(n).len() ==> digit_value(#[trigger] numeral(n)[i]) is Some,
    decreases n,
{
    reveal_with_fuel(scan, 2);
    if n < 10 {
        lemma_digit_value(n);
        assert(numeral(n).drop_last() =~= Seq::empty());
    } else {
        lemma_numeral_is_scanned(n / 10);
        lemma_digit_value(n % 10);
        assert(numeral(n).drop_last() =~= numeral(n / 10));
        assert forall|i: int| 0 <= i < numeral(n).len() implies digit_value(
            #[trigger] numeral(n)[i],
        ) is Some by {
            if i < numeral(n / 10).len() {
                assert(numeral(n)[i] == numeral(n / 10)[i]);
            }
        }
    }
}

/// The digits of a fraction behind the point are read as the fraction.
proof fn lemma_fraction_is_scanned(s: Seq<char>, u: int, f: int, done: int, k: nat, v: int, a: int)
    requires
        scan(s) == Some((u, place_units(done))),
        0 <= done,
        done + k <= 7,
        0 <= u,
        0 <= v,
        u + v <= i64::MAX,
        0 <= f < SCALE,
        f == a * place_units(k as int),
        f * place_units(done) == v * SCALE,
    ensures
        scan(s + fraction_digits(f, k)) matches Some((y, _)) && y == u + v,
        fraction_digits(f, k).len() == k,
        forall|i: int|
            0 <= i < k ==> digit_value(#[trigger] fraction_digits(f, k)[i]) is Some,
    decreases k,
{
    law_places_count_tenfold(done);
    law_places_count_tenfold(k as int);
    law_places_count_tenfold(done + 1);
    if k == 0 {
        assert(f == 0) by (nonlinear_arith)
            requires
                f == a * place_units(0),
                place_units(0) == SCALE,
                0 <= f < SCALE,
        ;
        assert(f * place_units(done) == 0) by (nonlinear_arith)
            requires
                f == 0,
        ;
        assert(s + fraction_digits(f, k) =~= s);
    } else {
        let d = f * 10 / SCALE as int;
        let rest = f * 10 % SCALE as int;
        let wt = place_units(done + 1);
        assert(place_units(done) == 10 * wt);
        assert(0 <= d < 10 && f * 10 == d * SCALE + rest);
        let c = digit(d as nat);
        lemma_digit_value(d as nat);
        let t = s.push(c);
        assert(t.drop_last() =~= s);
        assert((10 * wt) / 10 == wt);
        let v2 = v - d * wt;
        assert(rest * wt == v2 * SCALE) by (nonlinear_arith)
            requires
                f * (10 * wt) == v * SCALE,
                f * 10 == d * SCALE + rest,
                v2 == v - d * wt,
        ;
        assert(wt > 0);
        assert(v2 >= 0 && d * wt >= 0) by (nonlinear_arith)
            requires
                rest * wt == v2 * SCALE,
                rest >= 0,
                wt > 0,
                d >= 0,
        ;
        assert(u + d * wt <= i64::MAX);
        assert(scan(t) == scan_step(u, place_units(done), c));
        assert(scan(t) == Some((u + d * wt, wt)));
        let p = place_units(k as int);
        let b = SCALE as int / (10 * p);
        law_places_count_tenfold(k - 1);
        assert(place_units(k - 1) == 10 * p);
        assert(SCALE == b * (10 * p)) by (nonlinear_arith)
            requires
                b == SCALE as int / (10 * p),
                SCALE as int % (10 * p) == 0,
                p > 0,
        ;
        assert(rest == (a - d * b) * (10 * p)) by (nonlinear_arith)
            requires
                f == a * p,
                f * 10 == d * SCALE + rest,
                SCALE == b * (10 * p),
        ;
        lemma_fraction_is_scanned(t, u + d * wt, rest, done + 1, (k - 1) as nat, v2, a - d * b);
        let whole = fraction_digits(f, k);
        let back = fraction_digits(rest, (k - 1) as nat);
        assert(s + whole =~= t + back);
        assert forall|i: int| 0 <= i < k implies digit_value(#[trigger] whole[i]) is Some by {
            if i > 0 {
                assert(whole[i] == back[i - 1]);
            }
        }
    }
}

/// A text without a mark has no exponent.
proof fn lemma_no_mark(s: Seq<char>, t: Seq<char>)
    requires
        forall|i: int| 0 <= i < s.len() ==> #[trigger] s[i] != 'e' && s[i] != 'E',
        t.len() == 0 || t[0] == 'e' || t[0] == 'E',
    ensures
        exponent_mark(s + t) == s.len(),
    decreases s.len(),
{
    if s.len() == 0 {
        assert(s + t =~= t);
    } else {
        assert((s + t)[0] == s[0]);
        assert((s + t).skip(1) =~= s.skip(1) + t);
        assert forall|i: int| 0 <= i < s.skip(1).len() implies #[trigger] s.skip(1)[i] != 'e'
            && s.skip(1)[i] != 'E' by {
            assert(s.skip(1)[i] == s[i + 1]);
        }
        lemma_no_mark(s.skip(1), t);
    }
}

/// A number is read back from its digits, rounded to their places; with seven places it
/// is the number itself. Its digits begin with a minus if and only if it is negative, and
/// as many as asked for stand behind the point.
pub proof fn law_fixed_is_read_back_from_its_digits(x: Fixed, places: u8)
    requires
        places <= 7,
        ({
            let m = if x.units < 0 {
                -x.units
            } else {
                x.units as int
            };
            to_places(m, places as int) <= 0x7fff_ffff_ffff_ffff
        }),
    ensures
        ({
            let m = if x.units < 0 {
                -x.units
            } else {
                x.units as int
            };
            let r = to_places(m, places as int);
            let text = x.digits(places);
            &&& Fixed::reading(text) matches Some(y) && y.units == if x.units < 0 {
                -r
            } else {
                r
            }
            &&& places == 7 ==> Fixed::reading(text) == Some(x)
            &&& text[0] == '-' <==> x.units < 0
            &&& places > 0 ==> text.len() > places && text[text.len() - places - 1] == '.'
            &&& places == 0 ==> !text.contains('.')
        }),
{
    let neg = x.units < 0;
    let m = if neg {
        -x.units
    } else {
        x.units as int
    };
    let r = to_places(m, places as int);
    law_places_round_to_even(m, places as int);
    law_places_count_tenfold(places as int);
    let (w, f) = (r / SCALE as int, r % SCALE as int);
    let front = numeral(w as nat);
    let back = fraction_digits(f, places as nat);
    reveal_strlit("-");
    reveal_strlit(".");
    reveal_strlit("");
    let sign = if neg {
        "-"@
    } else {
        ""@
    };
    let point = if places == 0 {
        ""@
    } else {
        "."@
    };
    let plain = front + point + back;
    let text = x.digits(places);
    assert(text =~= sign + plain);
    lemma_numeral_is_scanned(w as nat);
    let p = place_units(places as int);
    let b = SCALE as int / p;
    let a = f / p;
    assert(SCALE == b * p) by (nonlinear_arith)
        requires
            b == SCALE as int / p,
            SCALE as int % p == 0,
            p > 0,
    ;
    assert(f == a * p) by {
        let c = r / p;
        assert(r == c * p) by (nonlinear_arith)
            requires
                c == r / p,
                r % p == 0,
                p > 0,
        ;
        assert(f == (c - w * b) * p) by (nonlinear_arith)
            requires
                r == c * p,
                SCALE == b * p,
                r == w * SCALE + f,
        ;
        assert(((c - w * b) * p) / p == c - w * b) by (nonlinear_arith)
            requires
                p > 0,
        ;
    }
    if places == 0 {
        assert(place_units(0) == SCALE);
        assert(f == 0);
        assert(plain =~= front);
        assert(text =~= sign + front);
    } else {
        let s = front + point;
        assert(s.drop_last() =~= front);
        assert(place_units(0) == SCALE);
        assert(scan(s) == scan_step(w * SCALE, 0, '.'));
        assert(scan(s) == Some((w * SCALE, place_units(0))));
        lemma_fraction_is_scanned(s, w * SCALE, f, 0, places as nat, f, a);
        assert(text[text.len() - places - 1] == plain[plain.len() - places - 1]);
    }
    assert(scan(plain) matches Some((y, _)) && y == r);
    assert forall|i: int| 0 <= i < plain.len() implies #[trigger] plain[i] != 'e' && plain[i] != 'E'
        && plain[i] != '-' && plain[i] != '+' && (plain[i] == '.' ==> places > 0) by {
        if i < front.len() {
            assert(plain[i] == front[i]);
        } else if i >= front.len() + point.len() {
            assert(plain[i] == back[i - front.len() - point.len()]);
        }
    }
    lemma_no_mark(plain, Seq::empty());
    assert(plain + Seq::<char>::empty() =~= plain);
    assert(plain[0] == front[0]);
    assert(plain_reading(plain) == unsigned_reading(plain));
    if neg {
        assert(text.skip(1) =~= plain);
        assert(text[0] == '-');
    } else {
        assert(text =~= plain);
    }
    if places == 0 && text.contains('.') {
        let i = choose|i: int| 0 <= i < text.len() && text[i] == '.';
        assert(text[i] == sign[i] || text[i] == plain[i - sign.len()]);
    }
}

/// An exponent behind a numeral moves its point: by one place to the right it is ten
/// times as much, to the left a tenth, rounded down.
pub proof fn law_exponent_moves_the_point(s: Seq<char>, n: nat, u: int, e: int)
    requires
        forall|i: int| 0 <= i < s.len() ==> #[trigger] s[i] != 'e' && s[i] != 'E',
        unsigned_reading(s) is Some,
        n <= 100,
    ensures
        plain_reading(s) == unsigned_reading(s),
        ({
            let x = unsigned_reading(s)->0.units as int;
            let right = plain_reading(s + seq!['e'] + numeral(n));
            let left = plain_reading(s + seq!['E', '-'] + numeral(n));
            &&& right matches Some(y) && y.units == shifted(x, n as int)
            &&& left matches Some(y) && y.units == shifted(x, -n)
        }),
        shifted(u, 0) == u,
        e >= 0 && can_be_told(10 * u) ==> shifted(u, e + 1) == shifted(10 * u, e),
        e >= 0 ==> shifted(u, -(e + 1)) == shifted(u / 10, -e),
{
    lemma_no_mark(s, Seq::empty());
    assert(s + Seq::<char>::empty() =~= s);
    let x = unsigned_reading(s)->0.units as int;
    lemma_exponent_is_read(n);
    let t = numeral(n);
    let a = s + seq!['e'] + t;
    assert(a =~= s + (seq!['e'] + t));
    lemma_no_mark(s, seq!['e'] + t);
    assert(a.take(s.len() as int) =~= s);
    assert(a.skip(s.len() as int + 1) =~= t);
    lemma_shift_stays(x, n as int);
    let b = s + seq!['E', '-'] + t;
    assert(b =~= s + (seq!['E', '-'] + t));
    lemma_no_mark(s, seq!['E', '-'] + t);
    assert(b.take(s.len() as int) =~= s);
    let tail = b.skip(s.len() as int + 1);
    assert(tail =~= seq!['-'] + t);
    assert(tail.skip(1) =~= t);
    lemma_shift_stays(x, -n);
}

proof fn lemma_exponent_is_read(n: nat)
    requires
        n <= 100,
    ensures
        exponent_digits(numeral(n)) == Some(n as int),
        exponent_of(numeral(n)) == Some(n as int),
        numeral(n).len() > 0,
        numeral(n)[0] != '-' && numeral(n)[0] != '+',
    decreases n,
{
    reveal_with_fuel(exponent_digits, 2);
    if n < 10 {
        lemma_digit_value(n);
        assert(numeral(n).drop_last() =~= Seq::empty());
    } else {
        lemma_exponent_is_read(n / 10);
        lemma_digit_value(n % 10);
        assert(numeral(n).drop_last() =~= numeral(n / 10));
    }
}

proof fn lemma_shift_stays(u: int, e: int)
    requires
        can_be_told(u),
    ensures
        can_be_told(shifted(u, e)),
    decreases
            if e < 0 {
                -e
            } else {
                e
            },
{
    if e > 0 {
        lemma_shift_stays(crate::fixed::capped(10 * u).units as int, e - 1);
    } else if e < 0 {
        lemma_shift_stays(u / 10, e + 1);
    }
}

/// Of several characters the sign alone is taken off a text: a minus changes the sign of
/// what stands behind it, a plus does not, and a text with another character has no
/// number.
pub proof fn law_signs_are_read(s: Seq<char>)
    requires
        s.len() > 0,
        s[0] != '-',
        s[0] != '+',
    ensures
        Fixed::reading(seq!['+'] + s) == Fixed::reading(s),
        Fixed::reading(s) is None <==> Fixed::reading(seq!['-'] + s) is None,
        Fixed::reading(s) matches Some(x) ==> Fixed::reading(seq!['-'] + s) == Some(x.negation()),
        Fixed::reading(Seq::empty()) is None,
        Fixed::reading(seq!['.']) is None,
{
    assert((seq!['+'] + s).skip(1) =~= s);
    assert((seq!['-'] + s).skip(1) =~= s);
    let p = seq!['.'];
    assert(p.skip(1) =~= Seq::empty());
    reveal_with_fuel(exponent_mark, 3);
}

/// Characters that are no digits, points or exponents spoil a number, and so does a
/// second point.
pub proof fn law_other_characters_spoil_a_number(s: Seq<char>, c: char)
    requires
        !('0' <= c && c <= '9'),
    ensures
        c != '.' ==> scan(s.push(c)) is None,
        scan(s) is Some && s.contains('.') ==> scan(s.push('.')) is None,
{
    assert(s.push(c).drop_last() =~= s);
    assert(s.push('.').drop_last() =~= s);
    if scan(s) is Some && s.contains('.') {
        lemma_point_gives_weight(s);
    }
}

proof fn lemma_point_gives_weight(s: Seq<char>)
    requires
        scan(s) is Some,
    ensures
        s.contains('.') ==> (scan(s) matches Some((_, weight)) && weight > 0),
    decreases s.len(),
{
    if s.len() > 0 {
        let front = s.drop_last();
        lemma_point_gives_weight(front);
        if s.contains('.') && s.last() != '.' {
            let i = choose|i: int| 0 <= i < s.len() && s[i] == '.';
            assert(front[i] == '.');
        }
    }
}

} // verus!
