//! What rounding to ten-millionths leaves of the laws of the grid.
use vstd::arithmetic::div_mod::lemma_fundamental_div_mod;
use vstd::prelude::*;

use crate::fixed::{capped, lemma_floor_of_multiple, lemma_prod_by_count, lemma_quot_by_count};
use crate::fixed::{Fixed, SCALE};
use crate::grid::{buy_levels, buy_price, center_of, grid_of, highest, level_at, levels_of, lowest};
use crate::grid::{lemma_extremes, offset_of, regime_spacing, sell_levels, sell_price, step_of};
use crate::grid::DynamicGrid;
use crate::models::{GridLevel, MarketState, Regime, Side, Trend, TrendSignal};
use crate::number::{ratio, Ordered, Total, Value};
use crate::risk::to_four_places;

verus! {

/// The largest price that is looked at, in units: ten million.
pub const PRICE_LIMIT: i64 = 100_000_000_000_000;

/// The most levels that are looked at.
pub const LEVEL_LIMIT: usize = 10_000;

// The grid in units
/// The factor of the regime on the spacing, in units.
pub open spec fn wide_units(regime: Regime) -> int {
    match regime {
        Regime::High => 25_000_000,
        Regime::Medium => 18_000_000,
        Regime::Low => 12_000_000,
    }
}

/// The factor of the signal on the spacing, in units.
pub open spec fn far_units(signal: TrendSignal) -> int {
    match signal {
        TrendSignal::Bullish => 9_000_000,
        TrendSignal::Caution => 10_000_000,
        TrendSignal::Bearish => 13_500_000,
    }
}

/// The middle over the price, in units.
pub open spec fn lean_units(state: MarketState<Fixed>) -> int {
    match state.trend_signal {
        TrendSignal::Bullish => 10_030_000,
        TrendSignal::Bearish => 9_970_000,
        TrendSignal::Caution => match state.trend {
            Trend::Up => 10_050_000,
            Trend::Down => 9_950_000,
            Trend::Neutral => 10_000_000,
        },
    }
}

/// The middle, in units.
#[verifier::opaque]
pub open spec fn center_units(state: MarketState<Fixed>) -> int {
    (state.price.units * lean_units(state)) / SCALE as int
}

/// From the middle to the ends of the grid, in units.
#[verifier::opaque]
pub open spec fn reach_units(state: MarketState<Fixed>) -> int {
    (((state.atr.units * wide_units(state.regime)) / SCALE as int) * far_units(
        state.trend_signal,
    )) / SCALE as int
}

/// The distance between two levels, in units.
pub open spec fn step_units(state: MarketState<Fixed>, n: usize) -> int {
    reach_units(state) / (n / 2) as int
}

/// A number of units rounded to four places.
#[verifier::opaque]
pub open spec fn places_units(x: int) -> int {
    1000 * ((x + 500) / 1000)
}

/// How far two numbers are apart.
pub open spec fn apart(x: int, y: int) -> int {
    if x < y {
        y - x
    } else {
        x - y
    }
}

/// An ordinary market: a price from one to ten million with a range of at most a
/// tenth.
pub open spec fn is_ordinary(state: MarketState<Fixed>) -> bool {
    &&& SCALE <= state.price.units <= PRICE_LIMIT
    &&& 1 <= state.atr.units
    &&& 10 * state.atr.units <= state.price.units
}

/// A number of levels, as many to buy as to sell.
pub open spec fn is_even(n: usize) -> bool {
    2 <= n <= LEVEL_LIMIT && n % 2 == 0
}

/// Rounding to four places, in units.
proof fn lemma_places(x: Fixed)
    requires
        0 <= x.units <= 2 * PRICE_LIMIT,
    ensures
        to_four_places(x).units == places_units(x.units as int),
        -500 < places_units(x.units as int) - x.units <= 500,
{
    reveal(places_units);
    let (u, s) = (x.units as int, SCALE as int);
    lemma_prod_by_count(x, 10_000);
    let m = (u * 10_000 + 5_000_000) / s;
    assert(m == (u + 500) / 1000) by (nonlinear_arith)
        requires
            m == (u * 10_000 + 5_000_000) / s,
            s == 10_000_000,
            u >= 0,
    ;
    let near = x.prod(Fixed::count(10_000)).nearest();
    assert(near.units == m * s);
    lemma_quot_by_count(near, 10_000);
    assert((m * s) / 10_000 == 1000 * m) by (nonlinear_arith)
        requires
            s == 10_000_000,
    ;
}

/// The middle, in units: within half a percent of the price.
proof fn lemma_center(state: MarketState<Fixed>)
    requires
        is_ordinary(state),
    ensures
        center_of(state).units == center_units(state),
        995 * state.price.units - 1000 < 1000 * center_units(state) <= 1005 * state.price.units,
{
    reveal(center_units);
    lemma_quot_by_count(Fixed::count(1003), 1000);
    lemma_quot_by_count(Fixed::count(997), 1000);
    lemma_quot_by_count(Fixed::count(1005), 1000);
    lemma_quot_by_count(Fixed::count(995), 1000);
    let p = state.price.units as int;
    assert((p * 10_000_000) / 10_000_000 == p);
}

/// The reach, in units: between about one and three and a half ranges.
proof fn lemma_reach(state: MarketState<Fixed>)
    requires
        is_ordinary(state),
    ensures
        state.atr.prod(regime_spacing(state.regime)).prod(
            state.trend_signal.spacing_factor(),
        ).units == reach_units(state),
        108 * state.atr.units - 190 <= 100 * reach_units(state),
        0 <= reach_units(state),
        1000 * reach_units(state) <= 3375 * state.atr.units,
{
    reveal(reach_units);
    lemma_quot_by_count(Fixed::count(25), 10);
    lemma_quot_by_count(Fixed::count(18), 10);
    lemma_quot_by_count(Fixed::count(12), 10);
    lemma_quot_by_count(Fixed::count(90), 100);
    lemma_quot_by_count(Fixed::count(1), 1);
    lemma_quot_by_count(Fixed::count(135), 100);
}

/// The steps and the distances from the middle, in units.
proof fn lemma_steps(state: MarketState<Fixed>, n: usize, i: nat)
    requires
        is_ordinary(state),
        is_even(n),
        1 <= i <= n / 2,
    ensures
        step_of(state, n).units == step_units(state, n),
        offset_of(state, n, i).units == i * step_units(state, n),
        0 <= step_units(state, n) <= i * step_units(state, n) <= reach_units(state),
        reach_units(state) - n / 2 < (n / 2) * step_units(state, n),
{
    let h = (n / 2) as int;
    lemma_reach(state);
    lemma_quot_by_count(Fixed::count(n as u64), 2);
    assert((n * SCALE) / 2 == h * SCALE);
    assert(Fixed::count(n as u64).quot(Fixed::count(2)) == Fixed::count(h as u64));
    let reach = state.atr.prod(regime_spacing(state.regime)).prod(
        state.trend_signal.spacing_factor(),
    );
    lemma_quot_by_count(reach, h as u64);
    let (r, s, j) = (reach_units(state), step_units(state, n), i as int);
    lemma_fundamental_div_mod(r, h);
    assert(0 <= s && s <= j * s && j * s <= r && r - h < h * s && s * j == j * s)
        by (nonlinear_arith)
        requires
            r == h * s + r % h,
            0 <= r % h < h,
            1 <= j <= h,
            0 <= r,
    ;
    lemma_prod_by_count(step_of(state, n), i as u64);
}

/// No buy level of an ordinary market is left out.
proof fn lemma_all_buys(state: MarketState<Fixed>, n: usize, k: nat)
    requires
        is_ordinary(state),
        is_even(n),
        k <= n / 2,
    ensures
        buy_levels(state, n, k).len() == k,
        forall|i: int|
            0 <= i < k ==> #[trigger] buy_levels(state, n, k)[i] == level_at(
                state,
                n,
                (i + 1) as nat,
                Side::Buy,
                buy_price(state, n, (i + 1) as nat),
            ),
    decreases k,
{
    if k > 0 {
        lemma_all_buys(state, n, (k - 1) as nat);
        lemma_center(state);
        lemma_reach(state);
        lemma_steps(state, n, k);
        lemma_places(center_of(state).diff(offset_of(state, n, k)));
    }
}

/// The ends of a grid are on either side of the price.
proof fn lemma_ends(p: int, a: int, h: int, c: int, r: int, off: int)
    requires
        SCALE <= p <= PRICE_LIMIT,
        p <= 1000 * a,
        10 * a <= p,
        1 <= h <= LEVEL_LIMIT / 2,
        995 * p - 1000 < 1000 * c <= 1005 * p,
        108 * a - 190 <= 100 * r,
        1000 * r <= 3375 * a,
        r - h < off <= r,
    ensures
        0 <= c - off <= 2 * PRICE_LIMIT,
        0 <= c + off <= 2 * PRICE_LIMIT,
        0 <= (places_units(c - off) * 9_950_000) / SCALE as int <= p,
        p <= (places_units(c + off) * 10_050_000) / SCALE as int <= i64::MAX,
{
    reveal(places_units);
}

/// The outermost prices of a grid, in units.
proof fn lemma_end_prices(state: MarketState<Fixed>, n: usize)
    requires
        is_ordinary(state),
        is_even(n),
        state.price.units <= 1000 * state.atr.units,
    ensures
        buy_price(state, n, (n / 2) as nat).prod(ratio(995, 1000)).units <= state.price.units,
        state.price.units <= sell_price(state, n, (n / 2) as nat).prod(ratio(1005, 1000)).units,
{
    let h = (n / 2) as nat;
    let (c, off) = (center_units(state), h * step_units(state, n));
    lemma_center(state);
    lemma_reach(state);
    lemma_steps(state, n, h);
    lemma_ends(
        state.price.units as int,
        state.atr.units as int,
        h as int,
        c,
        reach_units(state),
        off,
    );
    let (x, y) = (capped(c - off), capped(c + off));
    assert(center_of(state).diff(offset_of(state, n, h)) == x);
    assert(center_of(state).sum(offset_of(state, n, h)) == y);
    lemma_places(x);
    lemma_places(y);
    lemma_quot_by_count(Fixed::count(995), 1000);
    lemma_quot_by_count(Fixed::count(1005), 1000);
}

/// The price of a grid's market is within its ends.
proof fn lemma_price_inside(state: MarketState<Fixed>, n: usize)
    requires
        is_ordinary(state),
        is_even(n),
        state.price.units <= 1000 * state.atr.units,
    ensures
        !state.price.below(lowest(levels_of(state, n)).prod(ratio(995, 1000))),
        !highest(levels_of(state, n)).prod(ratio(1005, 1000)).below(state.price),
{
    let h = (n / 2) as nat;
    let levels = levels_of(state, n);
    let (low, high) = (buy_price(state, n, h), sell_price(state, n, h));
    lemma_end_prices(state, n);
    lemma_all_buys(state, n, h);
    assert(levels[h - 1].price == low) by {
        assert(levels[h - 1] == buy_levels(state, n, h)[h - 1]);
    }
    assert(levels[2 * h - 1].price == high) by {
        assert(levels[2 * h - 1] == sell_levels(state, n, h)[h - 1]);
    }
    lemma_extremes(levels, h - 1);
    lemma_extremes(levels, 2 * h - 1);
    let (less, more) = (ratio::<Fixed>(995, 1000), ratio::<Fixed>(1005, 1000));
    Fixed::law_positive_ratio(995, 1000);
    Fixed::law_positive_ratio(1005, 1000);
    Fixed::law_monotone(low, lowest(levels), less);
    Fixed::law_monotone(highest(levels), high, more);
}

/// In fixed point too, a grid just built asks for no rebuild in the market that it
/// was built for.
pub proof fn law_fixed_fresh_grid_stays(
    g: DynamicGrid<Fixed>,
    state: MarketState<Fixed>,
    n: usize,
    threshold_pct: Fixed,
)
    requires
        g@ == grid_of(state, n),
        is_ordinary(state),
        is_even(n),
        state.price.units <= 1000 * state.atr.units,
        threshold_pct.units > 0,
    ensures
        !g.range_shifted(state, threshold_pct),
        !g.price_outside(state),
        !g.regime_changed(state),
{
    lemma_price_inside(state, n);
    Fixed::law_zero(state.atr);
    Fixed::law_zero(Fixed::count(100));
}

/// In fixed point too, level prices are strictly apart where the step is not under a
/// ten-thousandth.
pub proof fn law_fixed_levels_strictly_apart(
    state: MarketState<Fixed>,
    n: usize,
    i: nat,
    j: nat,
)
    requires
        is_ordinary(state),
        is_even(n),
        1 <= i < j <= n / 2,
        10_000 * step_of(state, n).units >= SCALE,
    ensures
        buy_price(state, n, j).below(buy_price(state, n, i)),
        buy_price(state, n, i).below(sell_price(state, n, i)),
        sell_price(state, n, i).below(sell_price(state, n, j)),
{
    lemma_center(state);
    lemma_reach(state);
    lemma_steps(state, n, i);
    lemma_steps(state, n, j);
    let (c, s) = (center_units(state), step_units(state, n));
    let (u, v) = (i as int, j as int);
    assert(u * s + s <= v * s) by (nonlinear_arith)
        requires
            u + 1 <= v,
            s >= 0,
    ;
    let (a, b) = (capped(c - v * s), capped(c - u * s));
    let (d, e) = (capped(c + u * s), capped(c + v * s));
    assert(center_of(state).diff(offset_of(state, n, j)) == a);
    assert(center_of(state).diff(offset_of(state, n, i)) == b);
    assert(center_of(state).sum(offset_of(state, n, i)) == d);
    assert(center_of(state).sum(offset_of(state, n, j)) == e);
    lemma_places(a);
    lemma_places(b);
    lemma_places(d);
    lemma_places(e);
    reveal(places_units);
}

// Scaling
/// The market with price and range multiplied.
pub open spec fn multiplied_market(state: MarketState<Fixed>, k: int) -> MarketState<Fixed> {
    MarketState { price: capped(k * state.price.units), atr: capped(k * state.atr.units), ..state }
}

/// How far a price of the multiplied grid is at most from the multiple, in units:
/// `k` units for each step and three more, and half a ten-thousandth for the four
/// places of each price.
pub open spec fn scale_gap(n: usize, k: int) -> int {
    k * (n / 2 + 3) + 500 * (k + 1)
}

/// Whether a level of a multiplied grid stands for one of the grid: on the same
/// side, and but for rounding as many ranges away, at the multiple of the price, with
/// the same gain in money but for the factor, and as far from the market.
pub open spec fn is_multiplied_level(
    a: GridLevel<Fixed>,
    b: GridLevel<Fixed>,
    state: MarketState<Fixed>,
    n: usize,
    k: int,
) -> bool {
    let (price, atr) = (k * state.price.units, k * state.atr.units);
    &&& b.side == a.side
    &&& apart(b.price.units as int, k * a.price.units) <= scale_gap(n, k)
    &&& apart(b.atr_dist.units as int, a.atr_dist.units as int) * atr <= SCALE * (k * (n / 2 + 2))
        + atr
    &&& apart(b.distance.units as int, a.distance.units as int) * price <= 100 * (SCALE * scale_gap(
        n,
        k,
    ) + price)
    &&& apart(b.profit_pct.units * b.price.units, k * (a.profit_pct.units * a.price.units)) <= 100
        * (SCALE * (3 * k) + b.price.units + k * a.price.units)
}

/// The middle of the multiplied grid is the multiple but for `k` units.
proof fn lemma_center_multiplied(state: MarketState<Fixed>, k: int)
    requires
        k >= 1,
        is_ordinary(state),
        k * state.price.units <= PRICE_LIMIT,
    ensures
        0 <= center_units(multiplied_market(state, k)) - k * center_units(state) <= k - 1,
{
    reveal(center_units);
    let (p, l, s) = (state.price.units as int, lean_units(state), SCALE as int);
    assert(0 <= k * p) by (nonlinear_arith)
        requires
            k >= 1,
            p >= 0,
    ;
    assert((k * p) * l == k * (p * l)) by (nonlinear_arith);
    lemma_floor_of_multiple(p * l, (k * p) * l, s, k, 0);
    let d = ((k * p) * l) / s - k * ((p * l) / s);
    assert(d <= k - 1) by (nonlinear_arith)
        requires
            s * d <= k * (s - 1),
            s == 10_000_000,
            k >= 1,
    ;
}

/// The reach of the multiplied grid is the multiple but for three times `k` units.
proof fn lemma_reach_multiplied(state: MarketState<Fixed>, k: int)
    requires
        k >= 1,
        is_ordinary(state),
        k * state.price.units <= PRICE_LIMIT,
    ensures
        0 <= reach_units(multiplied_market(state, k)) - k * reach_units(state) <= 3 * k,
{
    reveal(reach_units);
    let (a, s) = (state.atr.units as int, SCALE as int);
    let (w, f) = (wide_units(state.regime), far_units(state.trend_signal));
    assert(0 <= k * a <= k * state.price.units) by (nonlinear_arith)
        requires
            k >= 1,
            0 <= a <= state.price.units,
    ;
    assert((k * a) * w == k * (a * w)) by (nonlinear_arith);
    lemma_floor_of_multiple(a * w, (k * a) * w, s, k, 0);
    let (u, v) = ((a * w) / s, ((k * a) * w) / s);
    let d = v - k * u;
    assert(d <= k - 1) by (nonlinear_arith)
        requires
            s * d <= k * (s - 1),
            s == 10_000_000,
            k >= 1,
    ;
    assert(v * f - k * (u * f) == d * f && 0 <= d * f <= (k - 1) * f) by (nonlinear_arith)
        requires
            d == v - k * u,
            0 <= d <= k - 1,
            f >= 0,
    ;
    lemma_floor_of_multiple(u * f, v * f, s, k, (k - 1) * f);
    let e = (v * f) / s - k * ((u * f) / s);
    assert(e <= 3 * k) by (nonlinear_arith)
        requires
            s * e <= (k - 1) * f + k * (s - 1),
            s == 10_000_000,
            0 <= f <= 13_500_000,
            k >= 1,
    ;
}

/// The steps of the multiplied grid are the multiples but for rounding.
proof fn lemma_steps_multiplied(state: MarketState<Fixed>, n: usize, i: nat, k: int)
    requires
        k >= 1,
        is_ordinary(state),
        k * state.price.units <= PRICE_LIMIT,
        is_even(n),
        1 <= i <= n / 2,
    ensures
        ({
            let (s, t) = (step_units(state, n), step_units(multiplied_market(state, k), n));
            &&& 0 <= t - k * s <= 3 * k
            &&& 0 <= i * t - k * (i * s) <= k * (n / 2 + 2)
        }),
{
    let h = (n / 2) as int;
    let big = multiplied_market(state, k);
    lemma_reach_multiplied(state, k);
    let (r, q) = (reach_units(state), reach_units(big));
    lemma_floor_of_multiple(r, q, h, k, 3 * k);
    let (s, t, j) = (step_units(state, n), step_units(big, n), i as int);
    let d = t - k * s;
    assert(d <= 3 * k) by (nonlinear_arith)
        requires
            h * d <= 3 * k + k * (h - 1),
            h >= 1,
            k >= 1,
    ;
    assert(j * t - k * (j * s) == j * d) by (nonlinear_arith)
        requires
            d == t - k * s,
    ;
    assert(0 <= j * d && j * d <= h * d && 3 * k + k * (h - 1) == k * (h + 2)) by (nonlinear_arith)
        requires
            0 <= d,
            1 <= j <= h,
    ;
}

/// What a level holds, in units.
proof fn lemma_level(state: MarketState<Fixed>, n: usize, i: nat, side: Side, q: Fixed)
    requires
        is_ordinary(state),
        is_even(n),
        1 <= i <= n / 2,
        step_units(state, n) <= q.units,
        0 < q.units < 2 * state.price.units,
    ensures
        ({
            let lv = level_at(state, n, i, side, q);
            let (p, s) = (state.price.units as int, SCALE as int);
            &&& lv.price == q
            &&& lv.side == side
            &&& lv.profit_pct.units == 100 * ((step_units(state, n) * s) / q.units as int)
            &&& lv.distance.units == 100 * ((apart(q.units as int, p) * s) / p)
            &&& lv.atr_dist.units == ((i * step_units(state, n)) * s) / state.atr.units as int
        }),
{
    lemma_steps(state, n, i);
    lemma_reach(state);
    let (p, a, s) = (state.price.units as int, state.atr.units as int, SCALE as int);
    let (st, u) = (step_units(state, n), q.units as int);
    let (m, d, f) = ((st * s) / u, (apart(u, p) * s) / p, ((i * st) * s) / a);
    lemma_ratio_bound(st, u, 1);
    lemma_ratio_bound(apart(u, p), p, 1);
    lemma_ratio_bound(i * st, a, 4);
    let by_price = step_of(state, n).quot(q);
    assert(by_price.units == m);
    lemma_prod_by_count(by_price, 100);
    let off = q.diff(state.price).size();
    assert(off.units == apart(u, p));
    let by_market = off.quot(state.price);
    assert(by_market.units == d);
    lemma_prod_by_count(by_market, 100);
}

/// A ratio in units is within its bound.
proof fn lemma_ratio_bound(x: int, y: int, c: int)
    requires
        0 <= x <= c * y,
        y > 0,
    ensures
        0 <= (x * SCALE) / y <= c * SCALE,
{
    let q = (x * SCALE) / y;
    lemma_fundamental_div_mod(x * SCALE, y);
    assert(0 <= q <= c * SCALE) by (nonlinear_arith)
        requires
            x * SCALE == y * q + (x * SCALE) % y,
            0 <= (x * SCALE) % y < y,
            0 <= x <= c * y,
            y > 0,
            SCALE == 10_000_000,
    ;
}

/// Two ratios, rounded down, whose terms are multiples but for a gap.
proof fn lemma_ratios_apart(x: int, y: int, p: int, k: int, gap: int)
    requires
        k >= 1,
        p > 0,
        apart(y, k * x) <= gap,
    ensures
        apart((y * SCALE) / (k * p), (x * SCALE) / p) * (k * p) <= SCALE * gap + k * p,
{
    let (s, kp) = (SCALE as int, k * p);
    assert(kp > 0) by (nonlinear_arith)
        requires
            kp == k * p,
            k >= 1,
            p > 0,
    ;
    let (d, e) = ((x * s) / p, (y * s) / kp);
    lemma_fundamental_div_mod(x * s, p);
    lemma_fundamental_div_mod(y * s, kp);
    let (u, v) = ((x * s) % p, (y * s) % kp);
    assert((e - d) * kp == s * (y - k * x) + k * u - v && 0 <= k * u < kp) by (nonlinear_arith)
        requires
            x * s == p * d + u,
            y * s == kp * e + v,
            kp == k * p,
            0 <= u < p,
            k >= 1,
    ;
    assert(-(s * gap) <= s * (y - k * x) <= s * gap) by (nonlinear_arith)
        requires
            -gap <= y - k * x <= gap,
            s >= 0,
    ;
    assert((d - e) * kp == -((e - d) * kp)) by (nonlinear_arith);
}

/// The gains in money of two levels, rounded down, are multiples but for rounding.
proof fn lemma_gains_apart(s: int, t: int, q: int, r: int, k: int)
    requires
        k >= 1,
        0 <= t - k * s <= 3 * k,
        q > 0,
        r > 0,
    ensures
        ({
            let (m, o) = (100 * ((s * SCALE) / q), 100 * ((t * SCALE) / r));
            apart(o * r, k * (m * q)) <= 100 * (SCALE * (3 * k) + r + k * q)
        }),
{
    let c = SCALE as int;
    let (m, o) = ((s * c) / q, (t * c) / r);
    lemma_fundamental_div_mod(s * c, q);
    lemma_fundamental_div_mod(t * c, r);
    let (u, v) = ((s * c) % q, (t * c) % r);
    let gap = c * (t - k * s);
    assert(o * r - k * (m * q) == gap + k * u - v && 0 <= k * u <= k * q) by (nonlinear_arith)
        requires
            s * c == q * m + u,
            t * c == r * o + v,
            gap == c * (t - k * s),
            0 <= u < q,
            k >= 1,
    ;
    assert(0 <= gap <= c * (3 * k)) by (nonlinear_arith)
        requires
            gap == c * (t - k * s),
            0 <= t - k * s <= 3 * k,
            c >= 0,
    ;
    assert((100 * o) * r == 100 * (o * r) && k * ((100 * m) * q) == 100 * (k * (m * q)))
        by (nonlinear_arith);
}

/// A level of the multiplied grid stands for one of the grid.
proof fn lemma_level_multiplied(
    state: MarketState<Fixed>,
    n: usize,
    i: nat,
    side: Side,
    x: Fixed,
    y: Fixed,
    k: int,
)
    requires
        k >= 1,
        is_ordinary(state),
        k * state.price.units <= PRICE_LIMIT,
        is_even(n),
        1 <= i <= n / 2,
        apart(y.units as int, k * x.units) <= k * (n / 2 + 3),
        10 * x.units >= 6 * state.price.units,
        10 * y.units >= 6 * (k * state.price.units),
        10 * x.units <= 15 * state.price.units,
        10 * y.units <= 15 * (k * state.price.units),
    ensures
        is_multiplied_level(
            level_at(state, n, i, side, to_four_places(x)),
            level_at(multiplied_market(state, k), n, i, side, to_four_places(y)),
            state,
            n,
            k,
        ),
{
    let big = multiplied_market(state, k);
    lemma_multiplied_is_ordinary(state, k);
    let (q, r) = (to_four_places(x), to_four_places(y));
    lemma_places(x);
    lemma_places(y);
    lemma_steps(state, n, i);
    lemma_steps(big, n, i);
    lemma_reach(state);
    lemma_reach(big);
    lemma_level(state, n, i, side, q);
    lemma_level(big, n, i, side, r);
    lemma_steps_multiplied(state, n, i, k);
    let (p, a) = (state.price.units as int, state.atr.units as int);
    let (u, v) = (q.units as int, r.units as int);
    let e = u - x.units;
    assert(k * u == k * x.units + k * e && -(500 * k) <= k * e <= 500 * k) by (nonlinear_arith)
        requires
            e == u - x.units,
            -500 < e <= 500,
            k >= 1,
    ;
    let gap = scale_gap(n, k);
    assert(apart(v, k * u) <= gap);
    let (s, t) = (step_units(state, n), step_units(big, n));
    lemma_gains_apart(s, t, u, v, k);
    let (d, f) = (apart(u, p), apart(v, k * p));
    assert(apart(f, k * d) <= gap) by {
        assert(k * (u - p) == k * u - k * p && k * (p - u) == k * p - k * u) by (nonlinear_arith);
        assert((u < p ==> k * u <= k * p) && (u >= p ==> k * u >= k * p)) by (nonlinear_arith)
            requires
                k >= 1,
        ;
    }
    lemma_ratios_apart(d, f, p, k, gap);
    lemma_ratios_apart(i * s, i * t, a, k, k * (n / 2 + 2));
    let (dd, ff) = ((d * SCALE) / p, (f * SCALE) / (k * p));
    let z = apart(ff, dd);
    assert(apart(100 * ff, 100 * dd) == 100 * z);
    assert((100 * z) * (k * p) == 100 * (z * (k * p))) by (nonlinear_arith);
}

/// A market multiplied is ordinary as long as its price is within the limit.
proof fn lemma_multiplied_is_ordinary(state: MarketState<Fixed>, k: int)
    requires
        k >= 1,
        is_ordinary(state),
        k * state.price.units <= PRICE_LIMIT,
    ensures
        is_ordinary(multiplied_market(state, k)),
        multiplied_market(state, k).price.units == k * state.price.units,
        multiplied_market(state, k).atr.units == k * state.atr.units,
{
    let (p, a) = (state.price.units as int, state.atr.units as int);
    assert(p <= k * p && a <= k * a && 10 * (k * a) <= k * p) by (nonlinear_arith)
        requires
            k >= 1,
            p >= 0,
            a >= 0,
            10 * a <= p,
    ;
}

/// In fixed point too, the grid is relative to the range: multiplying price and range
/// multiplies the grid, but for rounding.
pub proof fn law_fixed_grid_scales(state: MarketState<Fixed>, n: usize, k: int)
    requires
        k >= 1,
        is_ordinary(state),
        k * state.price.units <= PRICE_LIMIT,
        is_even(n),
    ensures
        ({
            let (a, b) = (levels_of(state, n), levels_of(multiplied_market(state, k), n));
            &&& a.len() == n
            &&& b.len() == n
            &&& forall|i: int|
                0 <= i < n ==> is_multiplied_level(#[trigger] a[i], b[i], state, n, k)
        }),
{
    let big = multiplied_market(state, k);
    lemma_multiplied_is_ordinary(state, k);
    let (a, b) = (levels_of(state, n), levels_of(big, n));
    lemma_nth_level(state, n, 0);
    lemma_nth_level(big, n, 0);
    assert forall|i: int| 0 <= i < n implies is_multiplied_level(
        #[trigger] a[i],
        b[i],
        state,
        n,
        k,
    ) by {
        lemma_nth_level_multiplied(state, n, i, k);
    }
}

/// Where a level stands in a grid.
proof fn lemma_nth_level(state: MarketState<Fixed>, n: usize, i: int)
    requires
        is_ordinary(state),
        is_even(n),
        0 <= i < n,
    ensures
        levels_of(state, n).len() == n,
        levels_of(state, n)[i] == if i < n / 2 {
            let m = (i + 1) as nat;
            level_at(state, n, m, Side::Buy, buy_price(state, n, m))
        } else {
            let m = (i - n / 2 + 1) as nat;
            level_at(state, n, m, Side::Sell, sell_price(state, n, m))
        },
{
    let h = (n / 2) as nat;
    lemma_all_buys(state, n, h);
    if i < h {
        assert(levels_of(state, n)[i] == buy_levels(state, n, h)[i]);
    } else {
        assert(levels_of(state, n)[i] == sell_levels(state, n, h)[i - h]);
    }
}

/// A level of the multiplied grid stands for the one at its place.
proof fn lemma_nth_level_multiplied(state: MarketState<Fixed>, n: usize, i: int, k: int)
    requires
        k >= 1,
        is_ordinary(state),
        k * state.price.units <= PRICE_LIMIT,
        is_even(n),
        0 <= i < n,
    ensures
        is_multiplied_level(
            levels_of(state, n)[i],
            levels_of(multiplied_market(state, k), n)[i],
            state,
            n,
            k,
        ),
{
    lemma_multiplied_is_ordinary(state, k);
    lemma_nth_level(state, n, i);
    lemma_nth_level(multiplied_market(state, k), n, i);
    lemma_pair_multiplied(
        state,
        n,
        (if i < n / 2 {
            i + 1
        } else {
            i - n / 2 + 1
        }) as nat,
        k,
    );
}

/// The levels on both sides, some steps from the middle.
proof fn lemma_pair_multiplied(state: MarketState<Fixed>, n: usize, i: nat, k: int)
    requires
        k >= 1,
        is_ordinary(state),
        k * state.price.units <= PRICE_LIMIT,
        is_even(n),
        1 <= i <= n / 2,
    ensures
        ({
            let big = multiplied_market(state, k);
            &&& is_multiplied_level(
                level_at(state, n, i, Side::Buy, buy_price(state, n, i)),
                level_at(big, n, i, Side::Buy, buy_price(big, n, i)),
                state,
                n,
                k,
            )
            &&& is_multiplied_level(
                level_at(state, n, i, Side::Sell, sell_price(state, n, i)),
                level_at(big, n, i, Side::Sell, sell_price(big, n, i)),
                state,
                n,
                k,
            )
        }),
{
    let big = multiplied_market(state, k);
    lemma_raw_prices(state, n, i, k);
    lemma_level_multiplied(
        state,
        n,
        i,
        Side::Buy,
        center_of(state).diff(offset_of(state, n, i)),
        center_of(big).diff(offset_of(big, n, i)),
        k,
    );
    lemma_level_multiplied(
        state,
        n,
        i,
        Side::Sell,
        center_of(state).sum(offset_of(state, n, i)),
        center_of(big).sum(offset_of(big, n, i)),
        k,
    );
}

/// The prices of the multiplied grid before they are rounded to four places.
proof fn lemma_raw_prices(state: MarketState<Fixed>, n: usize, i: nat, k: int)
    requires
        k >= 1,
        is_ordinary(state),
        k * state.price.units <= PRICE_LIMIT,
        is_even(n),
        1 <= i <= n / 2,
    ensures
        ({
            let big = multiplied_market(state, k);
            let (p, q) = (state.price.units, k * state.price.units);
            let (x, y) = (
                center_of(state).diff(offset_of(state, n, i)).units,
                center_of(big).diff(offset_of(big, n, i)).units,
            );
            let (u, v) = (
                center_of(state).sum(offset_of(state, n, i)).units,
                center_of(big).sum(offset_of(big, n, i)).units,
            );
            &&& apart(y as int, k * x) <= k * (n / 2 + 3)
            &&& apart(v as int, k * u) <= k * (n / 2 + 3)
            &&& 6 * p <= 10 * x <= 15 * p
            &&& 6 * p <= 10 * u <= 15 * p
            &&& 6 * q <= 10 * y <= 15 * q
            &&& 6 * q <= 10 * v <= 15 * q
        }),
{
    let big = multiplied_market(state, k);
    lemma_multiplied_is_ordinary(state, k);
    lemma_center(state);
    lemma_center(big);
    lemma_reach(state);
    lemma_reach(big);
    lemma_steps(state, n, i);
    lemma_steps(big, n, i);
    lemma_center_multiplied(state, k);
    lemma_steps_multiplied(state, n, i, k);
    let (c, off) = (center_units(state), i * step_units(state, n));
    let (d, gap) = (center_units(big), i * step_units(big, n));
    assert(center_of(state).diff(offset_of(state, n, i)).units == c - off);
    assert(center_of(state).sum(offset_of(state, n, i)).units == c + off);
    assert(center_of(big).diff(offset_of(big, n, i)).units == d - gap);
    assert(center_of(big).sum(offset_of(big, n, i)).units == d + gap);
    assert(k * (c - off) == k * c - k * off && k * (c + off) == k * c + k * off && k * (n / 2 + 3)
        == k * (n / 2 + 2) + k) by (nonlinear_arith);
}

} // verus!
