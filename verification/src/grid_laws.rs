//! What the grid is for: where its levels stand, what they tell, and when it is built
//! anew.
use vstd::prelude::*;

use crate::exact::{lemma_quot_undone, lemma_ratio_undone};
use crate::fixed::Fixed;
use crate::grid::{buy_levels, buy_price, center_of, falling, grid_of, highest, is_near};
use crate::grid::{law_listing_falls, law_listing_keeps_levels, lemma_all_buy_levels, rows_of};
use crate::grid::{lemma_extremes, lemma_part, lemma_places_are_near, level_at, levels_of, lowest};
use crate::grid::{sell_levels, step_of, DynamicGrid};
use crate::market_laws::law_regime_by_relative_range;
use crate::models::{GridLevel, MarketState, Regime, Side, TrendSignal};
use crate::number::Value;

verus! {

// Where the levels stand
/// Without rounding, the middle of the grid leans the way the market goes: three
/// thousandths with a clear signal, and under caution five thousandths with the trend.
pub proof fn law_middle_leans_with_the_market(state: MarketState<real>)
    ensures
        state.trend_signal is Bullish ==> 1000 as real * center_of(state) == 1003 as real
            * state.price,
        state.trend_signal is Bearish ==> 1000 as real * center_of(state) == 997 as real
            * state.price,
        state.trend_signal is Caution && state.trend is Up ==> 1000 as real * center_of(state)
            == 1005 as real * state.price,
        state.trend_signal is Caution && state.trend is Down ==> 1000 as real * center_of(state)
            == 995 as real * state.price,
        state.trend_signal is Caution && state.trend is Neutral ==> center_of(state) == state.price,
{
    lemma_part(state.price, 1003, 1000);
    lemma_part(state.price, 997, 1000);
    lemma_part(state.price, 1005, 1000);
    lemma_part(state.price, 995, 1000);
}

/// Without rounding, the levels of one side share the range, widened by the regime and
/// the signal: more than twofold in a high regime, least in a low one, denser in a
/// rising market and wider in a falling one.
pub proof fn law_step_shares_the_range(state: MarketState<real>, n: usize)
    requires
        n > 0,
    ensures
        ({
            let m = match state.regime {
                Regime::High => 25 as real,
                Regime::Medium => 18 as real,
                Regime::Low => 12 as real,
            };
            let s = match state.trend_signal {
                TrendSignal::Bullish => 90 as real,
                TrendSignal::Caution => 100 as real,
                TrendSignal::Bearish => 135 as real,
            };
            500 as real * step_of(state, n) * (n as real) == state.atr * m * s
        }),
{
    let m = match state.regime {
        Regime::High => 25 as real,
        Regime::Medium => 18 as real,
        Regime::Low => 12 as real,
    };
    let s = match state.trend_signal {
        TrendSignal::Bullish => 90 as real,
        TrendSignal::Caution => 100 as real,
        TrendSignal::Bearish => 135 as real,
    };
    let a = state.atr;
    lemma_part(a, 25, 10);
    lemma_part(a, 18, 10);
    lemma_part(a, 12, 10);
    let w = a.prod(crate::grid::regime_spacing(state.regime));
    assert(w * 10 as real == a * m);
    lemma_part(w, 90, 100);
    lemma_part(w, 1, 1);
    lemma_part(w, 135, 100);
    let f = w.prod(state.trend_signal.spacing_factor());
    assert(f * 100 as real == w * s);
    let k = n as real;
    assert(n as u64 as real == k);
    let half = k / 2 as real;
    lemma_quot_undone(k, 2 as real);
    let step = f / half;
    lemma_quot_undone(f, half);
    assert(500 as real * step * k == a * m * s) by (nonlinear_arith)
        requires
            w * 10 as real == a * m,
            f * 100 as real == w * s,
            half * 2 as real == k,
            step * half == f,
    ;
}

/// Without rounding, a level tells what a step above it gains in percent of its price,
/// how far it is from the market in percent of the market's price, and how many ranges
/// it is from the middle.
pub proof fn law_level_tells_its_figures(
    state: MarketState<real>,
    n: usize,
    i: u64,
    side: Side,
    price: real,
)
    requires
        price != 0 as real,
        state.price != 0 as real,
        state.atr != 0 as real,
    ensures
        ({
            let lv = level_at(state, n, i as nat, side, price);
            &&& lv.price == price
            &&& lv.side == side
            &&& lv.profit_pct * price == 100 as real * step_of(state, n)
            &&& price >= state.price ==> lv.distance * state.price == 100 as real * (price
                - state.price)
            &&& price <= state.price ==> lv.distance * state.price == 100 as real * (state.price
                - price)
            &&& lv.atr_dist * state.atr == (i as real) * step_of(state, n)
        }),
{
    let step = step_of(state, n);
    let (p, a) = (state.price, state.atr);
    let d = (price - p).size();
    lemma_quot_undone(step, price);
    lemma_quot_undone(d, p);
    lemma_quot_undone((i as real) * step, a);
    let (x, y) = (step / price, d / p);
    assert((x * 100 as real) * price == 100 as real * step && (y * 100 as real) * p == 100 as real
        * d) by (nonlinear_arith)
        requires
            x * price == step,
            y * p == d,
    ;
}

/// Without rounding but for the four places of a price, the levels of an ordinary
/// market stand one step after the other: first the buys, going down from the middle,
/// then the sells, going up.
pub proof fn law_levels_stand_at_steps(state: MarketState<real>, n: usize, i: int)
    requires
        n >= 2,
        n % 2 == 0,
        state.price >= 1 as real,
        state.atr > 0 as real,
        10 as real * state.atr <= state.price,
        0 <= i < n,
    ensures
        ({
            let g = grid_of(state, n);
            let lv = g.levels[i];
            let steps = if i < n / 2 {
                i + 1
            } else {
                i - n / 2 + 1
            };
            let off = (steps as real) * step_of(state, n);
            let gap = if i < n / 2 {
                lv.price - (center_of(state) - off)
            } else {
                lv.price - (center_of(state) + off)
            };
            &&& g.levels.len() == n && g.count == n
            &&& g.price == state.price && g.atr == state.atr
            &&& lv.side is Buy <==> i < n / 2
            &&& lv == level_at(state, n, steps as nat, lv.side, lv.price)
            &&& -(1 as real) <= 20_000 as real * gap && 20_000 as real * gap <= 1 as real
        }),
{
    let h = (n / 2) as nat;
    lemma_all_buy_levels(state, n, h);
    let levels = levels_of(state, n);
    let steps = if i < n / 2 {
        i + 1
    } else {
        i - n / 2 + 1
    };
    let off = (steps as real) * step_of(state, n);
    if i < h {
        assert(levels[i] == buy_levels(state, n, h)[i]);
        lemma_places_are_near(center_of(state) - off);
    } else {
        assert(levels[i] == sell_levels(state, n, h)[i - h]);
        lemma_places_are_near(center_of(state) + off);
    }
}

// When the grid is built anew
/// Without rounding, the range has shifted if and only if it is off from the one that
/// the grid was built for by the threshold, in percent.
pub proof fn law_range_shift_is_measured_in_percent(
    g: DynamicGrid<real>,
    state: MarketState<real>,
    threshold_pct: real,
)
    ensures
        g.range_shifted(state, threshold_pct) <==> g.build_atr > real::tiny() && {
            ||| threshold_pct * g.build_atr <= 100 as real * (state.atr - g.build_atr)
                && state.atr >= g.build_atr
            ||| threshold_pct * g.build_atr <= 100 as real * (g.build_atr - state.atr) && state.atr
                <= g.build_atr
        },
{
    let b = g.build_atr;
    let d = (state.atr - b).size();
    let q = d / b;
    if b > real::tiny() {
        lemma_quot_undone(d, b);
        assert(threshold_pct <= q * 100 as real <==> threshold_pct * b <= 100 as real * d)
            by (nonlinear_arith)
            requires
                q * b == d,
                b > 0 as real,
        ;
    }
}

/// Without rounding, the price has left the grid if and only if it is more than half a
/// percent under the lowest level or over the highest.
pub proof fn law_price_leaves_the_grid_by_half_a_percent(
    g: DynamicGrid<real>,
    state: MarketState<real>,
)
    ensures
        g.price_outside(state) <==> g.levels@.len() > 0 && {
            ||| 1000 as real * state.price < 995 as real * lowest(g.levels@)
            ||| 1000 as real * state.price > 1005 as real * highest(g.levels@)
        },
{
    lemma_part(lowest(g.levels@), 995, 1000);
    lemma_part(highest(g.levels@), 1005, 1000);
}

/// The lowest and the highest price are prices of levels, and none is beyond them.
pub proof fn law_extremes_are_levels(levels: Seq<GridLevel<Fixed>>, i: int)
    requires
        0 <= i < levels.len(),
    ensures
        lowest(levels).units <= levels[i].price.units <= highest(levels).units,
        exists|j: int| 0 <= j < levels.len() && lowest(levels) == (#[trigger] levels[j]).price,
        exists|j: int| 0 <= j < levels.len() && highest(levels) == (#[trigger] levels[j]).price,
    decreases levels.len(),
{
    lemma_extremes(levels, i);
    let n = levels.len() as int;
    let front = levels.drop_last();
    if n > 1 {
        law_extremes_are_levels(front, 0);
        let a = choose|j: int| 0 <= j < front.len() && lowest(front) == (#[trigger] front[j]).price;
        let b = choose|j: int|
            0 <= j < front.len() && highest(front) == (#[trigger] front[j]).price;
        assert(levels[a] == front[a] && levels[b] == front[b]);
    }
    assert(levels[n - 1] == levels.last());
}

/// Without rounding, the regime has changed if and only if the range at the price is in
/// another class than when the grid was built.
pub proof fn law_regime_changes_with_its_class(g: DynamicGrid<real>, state: MarketState<real>)
    requires
        state.price > 0 as real,
        g.build_price > 0 as real,
    ensures
        !g.regime_changed(state) <==> {
            &&& 1000 as real * state.atr < 8 as real * state.price <==> 1000 as real * g.build_atr
                < 8 as real * g.build_price
            &&& 1000 as real * state.atr < 20 as real * state.price <==> 1000 as real * g.build_atr
                < 20 as real * g.build_price
        },
{
    law_regime_by_relative_range(state.atr, state.price);
    law_regime_by_relative_range(g.build_atr, g.build_price);
}

/// Without rounding, a level is marked as near if and only if it is within two
/// thousandths of the price.
pub proof fn law_near_is_within_two_thousandths(level: GridLevel<real>, price: real)
    requires
        price > 0 as real,
    ensures
        is_near(level, price) <==> {
            &&& 1000 as real * (level.price - price) < 2 as real * price
            &&& 1000 as real * (price - level.price) < 2 as real * price
        },
{
    lemma_ratio_undone(2, 1000);
    let d = (level.price - price).size();
    let q = d / price;
    lemma_quot_undone(d, price);
    assert(1000 as real * q < 2 as real <==> 1000 as real * d < 2 as real * price)
        by (nonlinear_arith)
        requires
            q * price == d,
            price > 0 as real,
    ;
}

/// A grid is built anew exactly where a reason is told; a shifted range comes before a
/// price outside, and that before another regime.
pub proof fn law_first_reason_is_told<S: Value>(
    g: DynamicGrid<S>,
    state: MarketState<S>,
    threshold_pct: S,
    needed: bool,
    why: Seq<char>,
)
    requires
        g.asks_rebuild(state, threshold_pct, needed, why),
    ensures
        needed <==> why.len() > 0,
        why == "ATR shift"@ <==> g.range_shifted(state, threshold_pct),
        why == "price out of grid"@ <==> g.price_outside(state) && !g.range_shifted(
            state,
            threshold_pct,
        ),
        why == "regime change"@ <==> g.regime_changed(state) && !g.price_outside(state)
            && !g.range_shifted(state, threshold_pct),
        needed <==> g.range_shifted(state, threshold_pct) || g.price_outside(state)
            || g.regime_changed(state),
{
    reveal_strlit("");
    reveal_strlit("ATR shift");
    reveal_strlit("price out of grid");
    reveal_strlit("regime change");
    assert("ATR shift"@.len() == 9 && "price out of grid"@.len() == 17);
    assert("regime change"@.len() == 13 && ""@.len() == 0);
}

/// Without rounding, every buy level has a positive price, and no step with a positive
/// price is left out.
pub proof fn law_only_levels_without_a_price_are_left_out(
    state: MarketState<real>,
    n: usize,
    k: nat,
    j: nat,
)
    requires
        1 <= j <= k,
    ensures
        forall|i: int|
            0 <= i < buy_levels(state, n, k).len() ==> {
                let lv = #[trigger] buy_levels(state, n, k)[i];
                lv.price > 0 as real && lv.side is Buy
            },
        buy_price(state, n, j) > 0 as real ==> exists|i: int|
            0 <= i < buy_levels(state, n, k).len() && (#[trigger] buy_levels(state, n, k)[i]).price
                == buy_price(state, n, j),
        buy_levels(state, n, k).len() <= k,
    decreases k,
{
    let levels = buy_levels(state, n, k);
    let rest = buy_levels(state, n, (k - 1) as nat);
    if k > 1 {
        law_only_levels_without_a_price_are_left_out(
            state,
            n,
            (k - 1) as nat,
            if j < k {
                j
            } else {
                1
            },
        );
    } else {
        assert(rest =~= Seq::empty());
    }
    if buy_price(state, n, j) > 0 as real {
        if j == k {
            assert(levels[levels.len() - 1].price == buy_price(state, n, j));
        } else {
            let i = choose|i: int|
                0 <= i < rest.len() && (#[trigger] rest[i]).price == buy_price(state, n, j);
            assert(levels[i] == rest[i]);
        }
    }
    assert forall|i: int| 0 <= i < levels.len() implies {
        let lv = #[trigger] levels[i];
        lv.price > 0 as real && lv.side is Buy
    } by {
        if i < rest.len() {
            assert(levels[i] == rest[i]);
        }
    }
}

/// A grid is shown level by level, each once, from the highest price to the lowest, with
/// a mark exactly where a level is within two thousandths of the price.
pub proof fn law_grid_is_shown_from_the_top(
    levels: Seq<GridLevel<real>>,
    price: real,
    i: int,
    j: int,
)
    requires
        price > 0 as real,
        0 <= i < j < levels.len(),
    ensures
        ({
            let rows = rows_of(levels, price);
            let lv = rows[i].level;
            &&& rows.len() == levels.len()
            &&& rows[i].level.price >= rows[j].level.price
            &&& rows[i].near <==> {
                &&& 1000 as real * (lv.price - price) < 2 as real * price
                &&& 1000 as real * (price - lv.price) < 2 as real * price
            }
            &&& falling(levels).to_multiset() == levels.to_multiset()
            &&& lv == falling(levels)[i]
        }),
{
    law_listing_keeps_levels(levels);
    law_listing_falls(levels);
    law_near_is_within_two_thousandths(falling(levels)[i], price);
    let (a, b) = (falling(levels)[i], falling(levels)[j]);
    assert(!a.price.below(b.price));
}

} // verus!
