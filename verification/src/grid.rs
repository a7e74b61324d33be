//! The grid of order levels around the price, spaced by the average true range.
use vstd::prelude::*;

use crate::exact::{lemma_factor_cancels, lemma_factor_out, lemma_nearest_is_near};
use crate::exact::{lemma_nearest_keeps_apart, lemma_prod_in_order, lemma_quot_positive};
use crate::exact::lemma_quot_undone;
use crate::models::{
    bucket_of, regime_bucket, GridLevel, MarketState, Regime, Side, Trend, TrendSignal,
};
use crate::number::{law_larger, law_smaller};
use crate::number::{is_number, lemma_counts, lemma_not_below, lemma_not_below_chain};
use crate::number::{lit, max_of, min_of};
use crate::number::{larger, ratio, smaller, Number, Ordered, Total, Value};
use crate::risk::{four_places, to_four_places};

verus! {

pub struct DynamicGrid<S> {
    pub levels: Vec<GridLevel<S>>,
    pub build_atr: S,
    pub build_price: S,
    pub grid_levels: usize,
}

/// A grid as a value.
pub ghost struct Grid<S> {
    pub levels: Seq<GridLevel<S>>,
    pub atr: S,
    pub price: S,
    pub count: usize,
}

/// A level as it is shown: with a mark when it is close to the price.
#[derive(Debug, Clone, Copy)]
pub struct GridRow<S> {
    pub level: GridLevel<S>,
    pub near: bool,
}

/// The factor of a regime on the spacing.
pub open spec fn regime_spacing<S: Value>(regime: Regime) -> S {
    match regime {
        Regime::High => ratio(25, 10),
        Regime::Medium => ratio(18, 10),
        Regime::Low => ratio(12, 10),
    }
}

/// The distance between two levels of a grid with `n` levels.
pub open spec fn step_of<S: Value>(state: MarketState<S>, n: usize) -> S {
    state.atr.prod(regime_spacing(state.regime)).prod(state.trend_signal.spacing_factor()).quot(
        S::count(n as u64).quot(S::count(2)),
    )
}

/// The middle of the grid: the price, moved a little the way the trend goes.
pub open spec fn center_of<S: Value>(state: MarketState<S>) -> S {
    match state.trend_signal {
        TrendSignal::Bullish => state.price.prod(ratio(1003, 1000)),
        TrendSignal::Bearish => state.price.prod(ratio(997, 1000)),
        TrendSignal::Caution => match state.trend {
            Trend::Up => state.price.prod(ratio(1005, 1000)),
            Trend::Down => state.price.prod(ratio(995, 1000)),
            Trend::Neutral => state.price,
        },
    }
}

/// The distance of the `i`-th level from the middle.
pub open spec fn offset_of<S: Value>(state: MarketState<S>, n: usize, i: nat) -> S {
    S::count(i as u64).prod(step_of(state, n))
}

/// The level at a price, `i` steps from the middle.
pub open spec fn level_at<S: Value>(
    state: MarketState<S>,
    n: usize,
    i: nat,
    side: Side,
    price: S,
) -> GridLevel<S> {
    GridLevel {
        price,
        side,
        profit_pct: step_of(state, n).quot(price).prod(S::count(100)),
        distance: price.diff(state.price).size().quot(state.price).prod(S::count(100)),
        atr_dist: offset_of(state, n, i).quot(state.atr),
    }
}

/// The price of the `i`-th buy level, in four decimal places.
pub open spec fn buy_price<S: Value>(state: MarketState<S>, n: usize, i: nat) -> S {
    to_four_places(center_of(state).diff(offset_of(state, n, i)))
}

/// The price of the `i`-th sell level, in four decimal places.
pub open spec fn sell_price<S: Value>(state: MarketState<S>, n: usize, i: nat) -> S {
    to_four_places(center_of(state).sum(offset_of(state, n, i)))
}

/// The first `k` buy levels, nearest first, without those that have no positive
/// price.
pub open spec fn buy_levels<S: Value>(
    state: MarketState<S>,
    n: usize,
    k: nat,
) -> Seq<GridLevel<S>>
    decreases k,
{
    if k == 0 {
        Seq::empty()
    } else {
        let rest = buy_levels(state, n, (k - 1) as nat);
        let p = buy_price(state, n, k);
        if S::count(0).below(p) {
            rest.push(level_at(state, n, k, Side::Buy, p))
        } else {
            rest
        }
    }
}

/// The first `k` sell levels, nearest first.
pub open spec fn sell_levels<S: Value>(
    state: MarketState<S>,
    n: usize,
    k: nat,
) -> Seq<GridLevel<S>> {
    Seq::new(
        k,
        |i: int|
            level_at(
                state,
                n,
                (i + 1) as nat,
                Side::Sell,
                sell_price(state, n, (i + 1) as nat),
            ),
    )
}

/// The levels of a grid: half of them to buy, below the middle, then as many to
/// sell, above it.
pub open spec fn levels_of<S: Value>(state: MarketState<S>, n: usize) -> Seq<GridLevel<S>> {
    buy_levels(state, n, (n / 2) as nat) + sell_levels(state, n, (n / 2) as nat)
}

/// The grid of a market, with up to `n` levels.
pub open spec fn grid_of<S: Value>(state: MarketState<S>, n: usize) -> Grid<S> {
    Grid { levels: levels_of(state, n), atr: state.atr, price: state.price, count: n }
}

/// The lowest price of the levels.
pub open spec fn lowest<S: Value>(levels: Seq<GridLevel<S>>) -> S
    decreases levels.len(),
{
    if levels.len() == 0 {
        S::top()
    } else {
        smaller(lowest(levels.drop_last()), levels.last().price)
    }
}

/// The highest price of the levels.
pub open spec fn highest<S: Value>(levels: Seq<GridLevel<S>>) -> S
    decreases levels.len(),
{
    if levels.len() == 0 {
        S::bottom()
    } else {
        larger(highest(levels.drop_last()), levels.last().price)
    }
}

/// Where a level comes into a list in falling order: before the first level
/// with a lower price.
pub open spec fn place_of<S: Value>(s: Seq<GridLevel<S>>, x: GridLevel<S>) -> int
    decreases s.len(),
{
    if s.len() == 0 {
        0
    } else if s[0].price.below(x.price) {
        0
    } else {
        1 + place_of(s.skip(1), x)
    }
}

/// The levels in falling order; levels at the same price keep their order.
pub open spec fn falling<S: Value>(s: Seq<GridLevel<S>>) -> Seq<GridLevel<S>>
    decreases s.len(),
{
    if s.len() == 0 {
        Seq::empty()
    } else {
        let rest = falling(s.drop_last());
        rest.insert(place_of(rest, s.last()), s.last())
    }
}

/// Whether a level lies within two per mille of the price.
pub open spec fn is_near<S: Value>(level: GridLevel<S>, price: S) -> bool {
    level.price.diff(price).size().quot(price).below(ratio(2, 1000))
}

/// The levels as they are shown at a price, from the highest to the lowest.
pub open spec fn rows_of<S: Value>(levels: Seq<GridLevel<S>>, price: S) -> Seq<GridRow<S>> {
    Seq::new(
        levels.len(),
        |i: int|
            GridRow { level: falling(levels)[i], near: is_near(falling(levels)[i], price) },
    )
}

proof fn lemma_place_in_range<S: Value>(s: Seq<GridLevel<S>>, x: GridLevel<S>)
    ensures
        0 <= place_of(s, x) <= s.len(),
        forall|j: int| 0 <= j < place_of(s, x) ==> !(#[trigger] s[j]).price.below(x.price),
        place_of(s, x) < s.len() ==> s[place_of(s, x)].price.below(x.price),
    decreases s.len(),
{
    if s.len() > 0 && !s[0].price.below(x.price) {
        lemma_place_in_range(s.skip(1), x);
        assert forall|j: int| 0 <= j < place_of(s, x) implies !(#[trigger] s[j]).price.below(
            x.price,
        ) by {
            if j > 0 {
                assert(s.skip(1)[j - 1] == s[j]);
            }
        }
    }
}

impl<S> View for DynamicGrid<S> {
    type V = Grid<S>;

    open spec fn view(&self) -> Grid<S> {
        Grid {
            levels: self.levels@,
            atr: self.build_atr,
            price: self.build_price,
            count: self.grid_levels,
        }
    }
}

impl<S: Value> DynamicGrid<S> {
    /// The average range moved from the one that the grid was built for by at
    /// least the threshold.
    pub open spec fn range_shifted(self, state: MarketState<S>, threshold_pct: S) -> bool {
        S::tiny().below(self.build_atr) && threshold_pct.at_most(
            state.atr.diff(self.build_atr).size().quot(self.build_atr).prod(S::count(100)),
        )
    }

    /// The price left the grid by more than half a percent.
    pub open spec fn price_outside(self, state: MarketState<S>) -> bool {
        self.levels@.len() > 0 && (state.price.below(
            lowest(self.levels@).prod(ratio(995, 1000)),
        ) || highest(self.levels@).prod(ratio(1005, 1000)).below(state.price))
    }

    /// Whether an answer tells if the grid no longer fits the market, and why: of several
    /// reasons the first.
    pub open spec fn asks_rebuild(
        self,
        state: MarketState<S>,
        threshold_pct: S,
        needed: bool,
        why: Seq<char>,
    ) -> bool {
        &&& needed == (self.range_shifted(state, threshold_pct) || self.price_outside(state)
            || self.regime_changed(state))
        &&& why == if self.range_shifted(state, threshold_pct) {
            "ATR shift"@
        } else if self.price_outside(state) {
            "price out of grid"@
        } else if self.regime_changed(state) {
            "regime change"@
        } else {
            ""@
        }
    }

    /// The regime is another than when the grid was built.
    pub open spec fn regime_changed(self, state: MarketState<S>) -> bool {
        bucket_of(state.atr, state.price) != bucket_of(self.build_atr, self.build_price)
    }
}

impl<S: Number> DynamicGrid<S> {
    /// Builds the grid for a market.
    pub fn build(state: &MarketState<S>, grid_levels: usize) -> (r: Self)
        ensures
            r@ == grid_of(*state, grid_levels),
    {
        let regime_mult = match state.regime {
            Regime::High => lit(25, 10),
            Regime::Medium => lit(18, 10),
            Regime::Low => lit(12, 10),
        };
        let signal_mult = state.trend_signal.spacing_mult();
        let step = state.atr.times(regime_mult).times(signal_mult).over(
            S::from_u64(grid_levels as u64).over(S::from_u64(2)),
        );
        let center = match state.trend_signal {
            TrendSignal::Bullish => state.price.times(lit(1003, 1000)),
            TrendSignal::Bearish => state.price.times(lit(997, 1000)),
            TrendSignal::Caution => match state.trend {
                Trend::Up => state.price.times(lit(1005, 1000)),
                Trend::Down => state.price.times(lit(995, 1000)),
                Trend::Neutral => state.price,
            },
        };
        let mut levels: Vec<GridLevel<S>> = Vec::new();
        let half = grid_levels / 2;
        let mut i: usize = 0;
        while i < half
            invariant
                i <= half,
                half == grid_levels / 2,
                step == step_of(*state, grid_levels),
                center == center_of(*state),
                levels@ == buy_levels(*state, grid_levels, i as nat),
            decreases half - i,
        {
            i += 1;
            let offset = S::from_u64(i as u64).times(step);
            let p = four_places(center.minus(offset));
            if S::from_u64(0).lt(p) {
                levels.push(Self::level(state, step, offset, Side::Buy, p));
            }
        }
        let ghost buys = levels@;
        i = 0;
        assert(levels@ =~= buys + sell_levels(*state, grid_levels, 0));
        while i < half
            invariant
                i <= half,
                half == grid_levels / 2,
                step == step_of(*state, grid_levels),
                center == center_of(*state),
                levels@ == buys + sell_levels(*state, grid_levels, i as nat),
            decreases half - i,
        {
            i += 1;
            let offset = S::from_u64(i as u64).times(step);
            let p = four_places(center.plus(offset));
            levels.push(Self::level(state, step, offset, Side::Sell, p));
            assert(levels@ =~= buys + sell_levels(*state, grid_levels, i as nat));
        }
        DynamicGrid { levels, build_atr: state.atr, build_price: state.price, grid_levels }
    }

    /// The level at a price, `offset` from the middle.
    fn level(state: &MarketState<S>, step: S, offset: S, side: Side, price: S) -> (r: GridLevel<S>)
        ensures
            r == (GridLevel {
                price,
                side,
                profit_pct: step.quot(price).prod(S::count(100)),
                distance: price.diff(state.price).size().quot(state.price).prod(S::count(100)),
                atr_dist: offset.quot(state.atr),
            }),
    {
        GridLevel {
            price,
            side,
            profit_pct: step.over(price).times(S::from_u64(100)),
            distance: price.minus(state.price).abs().over(state.price).times(S::from_u64(100)),
            atr_dist: offset.over(state.atr),
        }
    }

    /// Whether the grid no longer fits the market, and why.
    pub fn needs_rebuild(&self, state: &MarketState<S>, threshold_pct: S) -> (r: (
        bool,
        &'static str,
    ))
        ensures
            self.asks_rebuild(*state, threshold_pct, r.0, r.1@),
    {
        if S::epsilon().lt(self.build_atr) {
            let chg = state.atr.minus(self.build_atr).abs().over(self.build_atr).times(
                S::from_u64(100),
            );
            if threshold_pct.le(chg) {
                return (true, "ATR shift");
            }
        }
        if self.levels.len() > 0 {
            let mut min_p = S::infinity();
            let mut max_p = S::neg_infinity();
            let mut i: usize = 0;
            while i < self.levels.len()
                invariant
                    i <= self.levels@.len(),
                    min_p == lowest(self.levels@.take(i as int)),
                    max_p == highest(self.levels@.take(i as int)),
                decreases self.levels.len() - i,
            {
                assert(self.levels@.take(i + 1).drop_last() =~= self.levels@.take(i as int));
                min_p = min_of(min_p, self.levels[i].price);
                max_p = max_of(max_p, self.levels[i].price);
                i += 1;
            }
            assert(self.levels@.take(i as int) =~= self.levels@);
            if state.price.lt(min_p.times(lit(995, 1000))) || max_p.times(lit(1005, 1000)).lt(
                state.price,
            ) {
                return (true, "price out of grid");
            }
        }
        if regime_bucket(state.atr, state.price) != regime_bucket(
            self.build_atr,
            self.build_price,
        ) {
            return (true, "regime change");
        }
        (false, "")
    }

    /// The levels from the highest price to the lowest, marked where they are
    /// close to the market's price.
    pub fn print_grid(&self, state: &MarketState<S>) -> (r: Vec<GridRow<S>>)
        ensures
            r@ == rows_of(self.levels@, state.price),
    {
        let mut sorted: Vec<GridLevel<S>> = Vec::new();
        let mut i: usize = 0;
        assert(sorted@ =~= falling(self.levels@.take(0)));
        while i < self.levels.len()
            invariant
                i <= self.levels@.len(),
                sorted@ == falling(self.levels@.take(i as int)),
                sorted@.len() == i,
            decreases self.levels.len() - i,
        {
            let lv = self.levels[i];
            let mut at: usize = 0;
            assert(sorted@.skip(0) =~= sorted@);
            while at < sorted.len() && !sorted[at].price.lt(lv.price)
                invariant
                    at <= sorted@.len(),
                    place_of(sorted@, lv) == at + place_of(sorted@.skip(at as int), lv),
                decreases sorted.len() - at,
            {
                assert(sorted@.skip(at as int).skip(1) =~= sorted@.skip(at + 1));
                at += 1;
            }
            assert(self.levels@.take(i + 1).drop_last() =~= self.levels@.take(i as int));
            sorted.insert(at, lv);
            i += 1;
        }
        assert(self.levels@.take(i as int) =~= self.levels@);
        let mut rows: Vec<GridRow<S>> = Vec::new();
        i = 0;
        while i < sorted.len()
            invariant
                i <= sorted@.len(),
                sorted@ == falling(self.levels@),
                rows@ == Seq::new(
                    i as nat,
                    |j: int| GridRow { level: sorted@[j], near: is_near(sorted@[j], state.price) },
                ),
            decreases sorted.len() - i,
        {
            let lv = sorted[i];
            let near = lv.price.minus(state.price).abs().over(state.price).lt(lit(2, 1000));
            rows.push(GridRow { level: lv, near });
            i += 1;
            assert(rows@ =~= Seq::new(
                i as nat,
                |j: int| GridRow { level: sorted@[j], near: is_near(sorted@[j], state.price) },
            ));
        }
        assert(rows@ =~= Seq::new(
            self.levels@.len(),
            |i: int|
                GridRow {
                    level: falling(self.levels@)[i],
                    near: is_near(falling(self.levels@)[i], state.price),
                },
        ));
        rows
    }
}

/// A grid has at most half its levels to buy and exactly half to sell; every
/// buy level has a positive price and stands before every sell level.
pub proof fn law_grid_shape<S: Value>(state: MarketState<S>, n: usize)
    ensures
        n / 2 <= levels_of(state, n).len() <= 2 * (n / 2),
        forall|i: int|
            0 <= i < levels_of(state, n).len() ==> {
                let level = #[trigger] levels_of(state, n)[i];
                if i < levels_of(state, n).len() - n / 2 {
                    level.side is Buy && S::count(0).below(level.price)
                } else {
                    level.side is Sell
                }
            },
{
    lemma_buy_levels(state, n, (n / 2) as nat);
}

proof fn lemma_buy_levels<S: Value>(state: MarketState<S>, n: usize, k: nat)
    ensures
        buy_levels(state, n, k).len() <= k,
        forall|i: int|
            0 <= i < buy_levels(state, n, k).len() ==> (#[trigger] buy_levels(
                state,
                n,
                k,
            )[i]).side is Buy && S::count(0).below(buy_levels(state, n, k)[i].price),
    decreases k,
{
    if k > 0 {
        lemma_buy_levels(state, n, (k - 1) as nat);
    }
}

/// The listing in falling order has the same levels.
pub proof fn law_listing_keeps_levels<S: Value>(s: Seq<GridLevel<S>>)
    ensures
        falling(s).len() == s.len(),
        falling(s).to_multiset() == s.to_multiset(),
    decreases s.len(),
{
    broadcast use vstd::seq_lib::group_to_multiset_ensures;

    if s.len() > 0 {
        let rest = falling(s.drop_last());
        law_listing_keeps_levels(s.drop_last());
        lemma_place_in_range(rest, s.last());
        assert(s =~= s.drop_last().push(s.last()));
        vstd::seq_lib::to_multiset_insert(rest, place_of(rest, s.last()), s.last());
    }
}

/// In the listing no level stands before one with a higher price, as long as
/// all prices are numbers.
pub proof fn law_listing_falls<S: Ordered>(s: Seq<GridLevel<S>>)
    requires
        forall|i: int| 0 <= i < s.len() ==> is_number((#[trigger] s[i]).price),
    ensures
        falling(s).len() == s.len(),
        forall|i: int| 0 <= i < s.len() ==> is_number((#[trigger] falling(s)[i]).price),
        forall|i: int, j: int|
            0 <= i < j < s.len() ==> !(#[trigger] falling(s)[i]).price.below(
                (#[trigger] falling(s)[j]).price,
            ),
    decreases s.len(),
{
    if s.len() > 0 {
        let front = s.drop_last();
        assert forall|i: int| 0 <= i < front.len() implies is_number(
            (#[trigger] front[i]).price,
        ) by {
            assert(is_number(s[i].price));
        }
        law_listing_falls(front);
        let rest = falling(front);
        let x = s.last();
        assert(is_number(s[s.len() - 1].price));
        let p = place_of(rest, x);
        lemma_place_in_range(rest, x);
        let all = rest.insert(p, x);
        assert(all == falling(s));
        assert forall|i: int| 0 <= i < s.len() implies is_number((#[trigger] all[i]).price) by {
            if i < p {
                assert(all[i] == rest[i]);
            } else if i > p {
                assert(all[i] == rest[i - 1]);
            }
        }
        assert forall|i: int, j: int| 0 <= i < j < s.len() implies !(#[trigger] all[i]).price.below(
            (#[trigger] all[j]).price,
        ) by {
            if j < p {
                assert(all[i] == rest[i] && all[j] == rest[j]);
            } else if i > p {
                assert(all[i] == rest[i - 1] && all[j] == rest[j - 1]);
            } else if j == p {
                assert(all[i] == rest[i]);
            } else {
                let low = rest[p];
                let later = rest[j - 1];
                assert(all[j] == later);
                S::law_strict(low.price, x.price);
                if i == p {
                    S::law_compare(low.price, later.price);
                    S::law_strict(x.price, later.price);
                    S::law_chain(low.price, x.price, later.price);
                    S::law_compare(later.price, low.price);
                    if j - 1 > p {
                        assert(!rest[p].price.below(rest[j - 1].price));
                    } else {
                        S::law_strict(low.price, low.price);
                    }
                } else {
                    assert(all[i] == rest[i]);
                    assert(!rest[i].price.below(rest[j - 1].price));
                }
            }
        }
    }
}

/// Rounding to four places keeps the order.
proof fn lemma_places_keep_order<S: Ordered>(a: S, b: S)
    requires
        !a.below(b),
    ensures
        !to_four_places(a).below(to_four_places(b)),
{
    let c = S::count(10_000);
    lemma_counts::<S>(1, 10_000);
    S::law_one();
    S::law_chain(S::count(0), S::count(1), c);
    S::law_strict(S::count(0), c);
    S::law_monotone(a, b, c);
    S::law_monotone(a.prod(c), b.prod(c), c);
    S::law_monotone(a.prod(c).nearest(), b.prod(c).nearest(), c);
}

/// The distance between two levels is not negative.
proof fn lemma_step_not_negative<S: Ordered>(state: MarketState<S>, n: usize)
    requires
        n >= 2,
        !state.atr.below(S::count(0)),
    ensures
        !step_of(state, n).below(S::count(0)),
{
    let zero = S::count(0);
    let wide = regime_spacing::<S>(state.regime);
    let far = state.trend_signal.spacing_factor::<S>();
    S::law_ratio_of_one(0);
    S::law_ratios(0, 1, 25, 10);
    S::law_ratios(0, 1, 18, 10);
    S::law_ratios(0, 1, 12, 10);
    S::law_ratios(0, 1, 90, 100);
    S::law_ratios(0, 1, 1, 1);
    S::law_ratios(0, 1, 135, 100);
    S::law_strict(wide, zero);
    S::law_strict(far, zero);
    S::law_prod(state.atr, wide);
    S::law_prod(state.atr.prod(wide), far);
    let half = ratio::<S>(n as u64, 2);
    let unit = ratio::<S>(2, 2);
    S::law_counts(2, n as u64);
    S::law_strict(S::count(n as u64), S::count(2));
    S::law_monotone(S::count(n as u64), S::count(2), S::count(2));
    S::law_positive_ratio(2, 2);
    S::law_strict(zero, unit);
    S::law_compare(zero, unit);
    S::law_compare(half, unit);
    S::law_chain(zero, unit, half);
    S::law_quot(state.atr.prod(wide).prod(far), half);
}

/// The distance from the middle is not negative.
proof fn lemma_offset_not_negative<S: Ordered>(state: MarketState<S>, n: usize, i: nat)
    requires
        n >= 2,
        i <= n,
        !state.atr.below(S::count(0)),
    ensures
        !offset_of(state, n, i).below(S::count(0)),
{
    lemma_step_not_negative(state, n);
    lemma_counts::<S>(0, i as u64);
    S::law_strict(S::count(i as u64), S::count(0));
    S::law_prod(S::count(i as u64), step_of(state, n));
}

/// No sell price is under a buy price: the middle of the grid parts them.
pub proof fn law_sides_do_not_cross<S: Ordered>(state: MarketState<S>, n: usize, i: nat, j: nat)
    requires
        n >= 2,
        i <= n,
        j <= n,
        is_number(center_of(state)),
        !state.atr.below(S::count(0)),
    ensures
        !sell_price(state, n, j).below(buy_price(state, n, i)),
{
    let middle = center_of(state);
    let low = middle.diff(offset_of(state, n, i));
    let high = middle.sum(offset_of(state, n, j));
    lemma_offset_not_negative(state, n, i);
    lemma_offset_not_negative(state, n, j);
    S::law_diff(middle, offset_of(state, n, i));
    S::law_sum(middle, offset_of(state, n, j));
    S::law_strict(high, low);
    S::law_compare(high, low);
    S::law_compare(middle, low);
    S::law_compare(high, middle);
    S::law_chain(low, middle, high);
    lemma_places_keep_order(high, low);
}

/// Levels further out are not nearer in price: buy prices fall and sell prices
/// rise with the distance from the middle.
pub proof fn law_levels_spread_out<S: Ordered>(state: MarketState<S>, n: usize, i: nat, j: nat)
    requires
        n >= 2,
        i <= j <= n,
        !state.atr.below(S::count(0)),
    ensures
        !buy_price(state, n, i).below(buy_price(state, n, j)),
        !sell_price(state, n, j).below(sell_price(state, n, i)),
{
    let middle = center_of(state);
    let near = offset_of(state, n, i);
    let far = offset_of(state, n, j);
    lemma_step_not_negative(state, n);
    lemma_counts::<S>(i as u64, j as u64);
    S::law_strict(S::count(j as u64), S::count(i as u64));
    S::law_monotone(S::count(j as u64), S::count(i as u64), step_of(state, n));
    S::law_monotone(far, near, middle);
    lemma_places_keep_order(middle.diff(near), middle.diff(far));
    lemma_places_keep_order(middle.sum(far), middle.sum(near));
}

/// The middle of a grid for a price of one or more is not under a half.
proof fn lemma_center_not_under_half<S: Total>(state: MarketState<S>)
    requires
        !state.price.below(S::count(1)),
    ensures
        !center_of(state).below(ratio(1, 2)),
{
    let one = S::count(1);
    let half = ratio::<S>(1, 2);
    S::law_ratios(1, 2, 1, 1);
    S::law_ratio_of_one(1);
    S::law_ratios(1, 2, 1003, 1000);
    S::law_ratios(1, 2, 997, 1000);
    S::law_ratios(1, 2, 1005, 1000);
    S::law_ratios(1, 2, 995, 1000);
    S::law_positive_ratio(1, 2);
    lemma_share_not_under_half(state.price, ratio(1003, 1000));
    lemma_share_not_under_half(state.price, ratio(997, 1000));
    lemma_share_not_under_half(state.price, ratio(1005, 1000));
    lemma_share_not_under_half(state.price, ratio(995, 1000));
    lemma_not_below(one, half);
    lemma_not_below_chain(state.price, one, half);
}

/// A price of one or more times something over a half is not under a half.
proof fn lemma_share_not_under_half<S: Total>(price: S, r: S)
    requires
        !price.below(S::count(1)),
        ratio::<S>(1, 2).at_most(r),
    ensures
        !price.prod(r).below(ratio(1, 2)),
{
    let (zero, half) = (S::count(0), ratio::<S>(1, 2));
    S::law_positive_ratio(1, 2);
    S::law_chain(zero, half, r);
    S::law_strict(zero, r);
    lemma_not_below(r, half);
    S::law_monotone(price, S::count(1), r);
    S::law_unit(r);
    lemma_not_below_chain(price.prod(r), r, half);
}

/// Every level of a grid for a price of one or more has a positive price.
pub proof fn law_levels_have_positive_prices<S: Total>(state: MarketState<S>, n: usize)
    requires
        !state.price.below(S::count(1)),
        !state.atr.below(S::count(0)),
    ensures
        forall|i: int|
            0 <= i < levels_of(state, n).len() ==> S::count(0).below(
                (#[trigger] levels_of(state, n)[i]).price,
            ),
{
    let levels = levels_of(state, n);
    let buys = levels.len() - n / 2;
    law_grid_shape(state, n);
    let (zero, one, scale) = (S::count(0), S::count(1), S::count(10_000));
    let half = ratio::<S>(1, 2);
    assert forall|i: int| 0 <= i < levels.len() implies zero.below(
        (#[trigger] levels[i]).price,
    ) by {
        if i >= buys {
            let j = (i - buys + 1) as nat;
            assert(levels[i] == sell_levels(state, n, (n / 2) as nat)[i - buys]);
            let middle = center_of(state);
            let at = middle.sum(offset_of(state, n, j));
            lemma_offset_not_negative(state, n, j);
            lemma_center_not_under_half(state);
            S::law_sum(middle, offset_of(state, n, j));
            lemma_not_below_chain(at, middle, half);
            lemma_places_keep_order(at, half);
            S::law_counts(2, 10_000);
            S::law_counts(10_000, 10_000);
            S::law_positive_ratio(1, 2);
            S::law_strict(zero, half);
            lemma_not_below(scale, S::count(2));
            S::law_monotone(scale, S::count(2), half);
            S::law_two();
            S::law_monotone(half.prod(scale), one, one);
            S::law_monotone(half.prod(scale).nearest(), one, scale);
            S::law_positive_ratio(1, 10_000);
            let least = ratio::<S>(1, 10_000);
            lemma_not_below_chain(to_four_places(at), to_four_places(half), least);
            S::law_chain(zero, least, to_four_places(at));
        }
    }
}

// Without rounding but for the four places of a price
/// Rounding to four places moves a price by half a ten-thousandth at most.
pub proof fn lemma_places_are_near(x: real)
    ensures
        -(1 as real) <= 20_000 as real * (to_four_places(x) - x) <= 1 as real,
{
    let y = x * 10_000 as real;
    lemma_nearest_is_near(y);
    lemma_quot_undone(y.nearest(), 10_000 as real);
}

/// Prices a ten-thousandth apart stay apart.
proof fn lemma_places_keep_apart(x: real, y: real)
    requires
        1 as real <= 10_000 as real * (y - x),
    ensures
        to_four_places(x) < to_four_places(y),
{
    lemma_nearest_keeps_apart(x * 10_000 as real, y * 10_000 as real);
    lemma_quot_undone((x * 10_000 as real).nearest(), 10_000 as real);
    lemma_quot_undone((y * 10_000 as real).nearest(), 10_000 as real);
}

/// Level prices are strictly apart where the step is not under a ten-thousandth:
/// every level further out is further from the middle, and every buy price is
/// under every sell price.
pub proof fn law_levels_strictly_apart(state: MarketState<real>, n: usize, i: nat, j: nat)
    requires
        1 <= i < j <= n,
        1 as real <= 10_000 as real * step_of(state, n),
    ensures
        buy_price(state, n, j) < buy_price(state, n, i),
        sell_price(state, n, i) < sell_price(state, n, j),
        buy_price(state, n, i) < sell_price(state, n, i),
        buy_price(state, n, j) < sell_price(state, n, i),
        buy_price(state, n, i) < sell_price(state, n, j),
        buy_price(state, n, j) < sell_price(state, n, j),
{
    let step = step_of(state, n);
    let middle = center_of(state);
    let (a, b) = (i as real, j as real);
    assert(a * step + step <= b * step && step <= a * step) by (nonlinear_arith)
        requires
            1 as real <= a,
            a + 1 as real <= b,
            step > 0 as real,
    ;
    lemma_places_keep_apart(middle - b * step, middle - a * step);
    lemma_places_keep_apart(middle + a * step, middle + b * step);
    lemma_places_keep_apart(middle - a * step, middle + a * step);
}

/// The middle is within half a percent of the price.
proof fn lemma_center_is_near(state: MarketState<real>)
    requires
        state.price > 0 as real,
    ensures
        995 as real * state.price <= 1000 as real * center_of(state) <= 1005 as real * state.price,
{
    let p = state.price;
    lemma_part(p, 1003, 1000);
    lemma_part(p, 997, 1000);
    lemma_part(p, 1005, 1000);
    lemma_part(p, 995, 1000);
}

/// A part of a number.
pub proof fn lemma_part(x: real, n: u64, d: u64)
    requires
        d > 0,
    ensures
        x.prod(ratio(n, d)) * (d as real) == x * (n as real),
{
    let (a, b) = (n as real, d as real);
    assert((x * (a / b)) * b == x * a) by (nonlinear_arith)
        requires
            b > 0 as real,
    ;
}

/// From the middle to the ends of the grid.
pub open spec fn reach_of(state: MarketState<real>) -> real {
    state.atr.prod(regime_spacing(state.regime)).prod(state.trend_signal.spacing_factor())
}

/// The grid reaches between about one and three and a half ranges to either side.
proof fn lemma_reach_is_bounded(state: MarketState<real>)
    requires
        state.atr > 0 as real,
    ensures
        108 as real * state.atr <= 100 as real * reach_of(state),
        1000 as real * reach_of(state) <= 3375 as real * state.atr,
{
    let a = state.atr;
    let w = a.prod(regime_spacing(state.regime));
    lemma_part(a, 25, 10);
    lemma_part(a, 18, 10);
    lemma_part(a, 12, 10);
    lemma_part(w, 90, 100);
    lemma_part(w, 1, 1);
    lemma_part(w, 135, 100);
}

/// The levels of one side reach to the ends of the grid.
proof fn lemma_offsets(state: MarketState<real>, n: usize, i: nat)
    requires
        n >= 2,
        n % 2 == 0,
        state.atr > 0 as real,
        1 <= i <= n / 2,
    ensures
        step_of(state, n) > 0 as real,
        (0 as real) < offset_of(state, n, i) <= reach_of(state),
        i == n / 2 ==> offset_of(state, n, i) == reach_of(state),
{
    let reach = reach_of(state);
    lemma_reach_is_bounded(state);
    let h = (n / 2) as real;
    let x = i as real;
    lemma_quot_undone(h, 2 as real);
    assert(n as real == h * 2 as real);
    let step = reach / h;
    assert(step_of(state, n) == step);
    lemma_quot_undone(reach, h);
    lemma_quot_positive(reach, h);
    lemma_prod_in_order(x, h, step);
    assert(x * step > 0 as real) by (nonlinear_arith)
        requires
            x > 0 as real,
            step > 0 as real,
    ;
}

/// In an ordinary market no buy level is left out.
pub proof fn lemma_all_buy_levels(state: MarketState<real>, n: usize, k: nat)
    requires
        n >= 2,
        n % 2 == 0,
        k <= n / 2,
        state.price >= 1 as real,
        state.atr > 0 as real,
        10 as real * state.atr <= state.price,
    ensures
        buy_levels(state, n, k).len() == k,
        forall|i: int|
            0 <= i < k ==> #[trigger] buy_levels(state, n, k)[i] == level_at(
                state,
                n,
                (i + 1) as nat,
                Side::Buy,
                buy_price(state, n, (i + 1) as nat),
            ),
    decreases k,
{
    if k > 0 {
        lemma_all_buy_levels(state, n, (k - 1) as nat);
        lemma_center_is_near(state);
        lemma_reach_is_bounded(state);
        lemma_offsets(state, n, k);
        lemma_places_are_near(center_of(state) - offset_of(state, n, k));
    }
}

/// No level is under the lowest price or over the highest.
pub proof fn lemma_extremes<S: Total>(levels: Seq<GridLevel<S>>, i: int)
    requires
        0 <= i < levels.len(),
    ensures
        lowest(levels).at_most(levels[i].price),
        levels[i].price.at_most(highest(levels)),
    decreases levels.len(),
{
    let front = levels.drop_last();
    let last = levels.last().price;
    law_smaller(lowest(front), last);
    law_larger(highest(front), last);
    lemma_not_below(last, lowest(levels));
    lemma_not_below(highest(levels), last);
    if i < levels.len() - 1 {
        lemma_extremes(front, i);
        lemma_not_below(lowest(front), lowest(levels));
        lemma_not_below(highest(levels), highest(front));
        S::law_chain(lowest(levels), lowest(front), levels[i].price);
        S::law_chain(levels[i].price, highest(front), highest(levels));
    }
}

/// A grid just built asks for no rebuild in the market that it was built for.
pub proof fn law_fresh_grid_stays(
    g: DynamicGrid<real>,
    state: MarketState<real>,
    n: usize,
    threshold_pct: real,
)
    requires
        g@ == grid_of(state, n),
        n >= 2,
        n % 2 == 0,
        state.price >= 1 as real,
        state.price <= 1000 as real * state.atr,
        10 as real * state.atr <= state.price,
        threshold_pct > 0 as real,
    ensures
        !g.range_shifted(state, threshold_pct),
        !g.price_outside(state),
        !g.regime_changed(state),
{
    let h = (n / 2) as nat;
    let levels = levels_of(state, n);
    lemma_all_buy_levels(state, n, h);
    lemma_center_is_near(state);
    lemma_reach_is_bounded(state);
    lemma_offsets(state, n, h);
    let (x, y) = (
        center_of(state) - offset_of(state, n, h),
        center_of(state) + offset_of(state, n, h),
    );
    lemma_places_are_near(x);
    lemma_places_are_near(y);
    assert(levels[h - 1] == buy_levels(state, n, h)[h - 1]);
    assert(levels[2 * h - 1] == sell_levels(state, n, h)[h - 1]);
    lemma_extremes(levels, h - 1);
    lemma_extremes(levels, 2 * h - 1);
    lemma_part(lowest(levels), 995, 1000);
    lemma_part(highest(levels), 1005, 1000);
    real::law_zero(state.atr);
    real::law_zero(100 as real);
}

/// The market with price and range scaled.
pub open spec fn scaled_market(state: MarketState<real>, k: real) -> MarketState<real> {
    MarketState { price: k * state.price, atr: k * state.atr, ..state }
}

/// Middle and step scale with the market.
proof fn lemma_grid_scales(state: MarketState<real>, n: usize, i: nat, k: real)
    requires
        n >= 2,
        i <= n,
        k >= 1 as real,
    ensures
        center_of(scaled_market(state, k)) == k * center_of(state),
        step_of(scaled_market(state, k), n) == k * step_of(state, n),
        offset_of(scaled_market(state, k), n, i) == k * offset_of(state, n, i),
{
    let (p, a) = (state.price, state.atr);
    let c = ratio::<real>(1003, 1000);
    let d = ratio::<real>(997, 1000);
    let e = ratio::<real>(1005, 1000);
    let f = ratio::<real>(995, 1000);
    assert((k * p) * c == k * (p * c) && (k * p) * d == k * (p * d) && (k * p) * e == k * (p * e)
        && (k * p) * f == k * (p * f)) by (nonlinear_arith);
    let (m, s) = (
        regime_spacing::<real>(state.regime),
        state.trend_signal.spacing_factor::<real>(),
    );
    assert((k * a) * m * s == k * (a * m * s)) by (nonlinear_arith);
    let half = n as real / 2 as real;
    lemma_quot_positive(n as real, 2 as real);
    lemma_factor_out(a * m * s, half, k);
    let (x, step) = (i as real, step_of(state, n));
    assert(x * (k * step) == k * (x * step)) by (nonlinear_arith);
}

/// Whether a level of a scaled grid stands for one of the grid: on the same side,
/// as many ranges away, at the scaled price but for the four places of both, with
/// the same gain in money but for the scale, and as far from the market but for
/// those places.
pub open spec fn is_scaled_level(
    a: GridLevel<real>,
    b: GridLevel<real>,
    price: real,
    k: real,
) -> bool {
    &&& b.side == a.side
    &&& b.atr_dist == a.atr_dist
    &&& (b.price - k * a.price).size() * 10_000 as real <= 1 as real + k
    &&& b.profit_pct * b.price == k * (a.profit_pct * a.price)
    &&& (b.distance - a.distance).size() * (k * price) * 100 as real <= 1 as real + k
}

proof fn lemma_level_scales(
    state: MarketState<real>,
    n: usize,
    i: nat,
    side: Side,
    at: real,
    k: real,
)
    requires
        n >= 2,
        i <= n,
        k >= 1 as real,
        state.price >= 1 as real,
        state.atr > 0 as real,
        to_four_places(at) > 0 as real,
        to_four_places(k * at) > 0 as real,
    ensures
        is_scaled_level(
            level_at(state, n, i, side, to_four_places(at)),
            level_at(scaled_market(state, k), n, i, side, to_four_places(k * at)),
            state.price,
            k,
        ),
{
    let (q, r) = (to_four_places(at), to_four_places(k * at));
    let p = state.price;
    lemma_places_are_near(at);
    lemma_places_are_near(k * at);
    let off = q - at;
    assert(k * q - k * at == k * off && -k <= 20_000 as real * (k * off) <= k)
        by (nonlinear_arith)
        requires
            off == q - at,
            -(1 as real) <= 20_000 as real * off <= 1 as real,
            k >= 1 as real,
    ;
    lemma_grid_scales(state, n, i, k);
    let step = step_of(state, n);
    let (u, v) = (step / q, (k * step) / r);
    lemma_quot_undone(step, q);
    lemma_quot_undone(k * step, r);
    assert((v * 100 as real) * r == k * ((u * 100 as real) * q)) by (nonlinear_arith)
        requires
            u * q == step,
            v * r == k * step,
    ;
    lemma_factor_cancels(offset_of(state, n, i), state.atr, k);
    let (x, y) = ((q - p).size(), (r - k * p).size());
    let gap = (r - k * q).size();
    assert(y - k * x <= gap && k * x - y <= gap) by {
        assert(k * q - k * p == k * (q - p)) by (nonlinear_arith);
        assert((q - p < 0 as real ==> k * (q - p) <= 0 as real) && (q - p >= 0 as real ==> k * (q
            - p) >= 0 as real)) by (nonlinear_arith)
            requires
                k >= 1 as real,
        ;
        assert(k * -(q - p) == -(k * (q - p))) by (nonlinear_arith);
    }
    let (d, e) = (x / p * 100 as real, y / (k * p) * 100 as real);
    let kp = k * p;
    assert(kp > 0 as real) by (nonlinear_arith)
        requires
            kp == k * p,
            k >= 1 as real,
            p >= 1 as real,
    ;
    lemma_quot_undone(x, p);
    lemma_quot_undone(y, kp);
    let (s, t) = (x / p, y / kp);
    assert((e - d) * kp == 100 as real * (y - k * x)) by (nonlinear_arith)
        requires
            s * p == x,
            t * kp == y,
            kp == k * p,
            d == s * 100 as real,
            e == t * 100 as real,
    ;
    let f = e - d;
    assert(f.size() * kp <= 100 as real * gap) by (nonlinear_arith)
        requires
            f * kp == 100 as real * (y - k * x),
            f.size() == f || f.size() == -f,
            y - k * x <= gap,
            k * x - y <= gap,
    ;
    assert(f.size() * (k * p) * 100 as real == (f.size() * kp) * 100 as real);
}

/// The grid is relative to the range: scaling price and range scales the grid, so
/// it needs no tuning for a symbol.
pub proof fn law_grid_scales(state: MarketState<real>, n: usize, k: real)
    requires
        n >= 2,
        n % 2 == 0,
        k >= 1 as real,
        state.price >= 1 as real,
        state.atr > 0 as real,
        10 as real * state.atr <= state.price,
    ensures
        ({
            let (a, b) = (levels_of(state, n), levels_of(scaled_market(state, k), n));
            &&& a.len() == n
            &&& b.len() == n
            &&& forall|i: int|
                0 <= i < n ==> is_scaled_level(#[trigger] a[i], b[i], state.price, k)
        }),
{
    let h = (n / 2) as nat;
    let big = scaled_market(state, k);
    let (p, r) = (state.price, state.atr);
    assert(k * p >= 1 as real && k * r > 0 as real && 10 as real * (k * r) <= k * p)
        by (nonlinear_arith)
        requires
            k >= 1 as real,
            p >= 1 as real,
            r > 0 as real,
            10 as real * r <= p,
    ;
    lemma_all_buy_levels(state, n, h);
    lemma_all_buy_levels(big, n, h);
    let (a, b) = (levels_of(state, n), levels_of(big, n));
    lemma_center_is_near(state);
    lemma_center_is_near(big);
    lemma_reach_is_bounded(state);
    lemma_reach_is_bounded(big);
    assert forall|i: int| 0 <= i < n implies is_scaled_level(#[trigger] a[i], b[i], p, k) by {
        let m = (if i < h {
            i + 1
        } else {
            i - h + 1
        }) as nat;
        let c = center_of(state);
        let off = offset_of(state, n, m);
        lemma_grid_scales(state, n, m, k);
        lemma_offsets(state, n, m);
        lemma_offsets(big, n, m);
        if i < h {
            assert(a[i] == buy_levels(state, n, h)[i]);
            assert(b[i] == buy_levels(big, n, h)[i]);
            assert(k * c - k * off == k * (c - off)) by (nonlinear_arith);
            lemma_places_are_near(c - off);
            lemma_places_are_near(k * (c - off));
            lemma_level_scales(state, n, m, Side::Buy, c - off, k);
        } else {
            assert(a[i] == sell_levels(state, n, h)[i - h]);
            assert(b[i] == sell_levels(big, n, h)[i - h]);
            assert(k * c + k * off == k * (c + off)) by (nonlinear_arith);
            lemma_places_are_near(c + off);
            lemma_places_are_near(k * (c + off));
            lemma_level_scales(state, n, m, Side::Sell, c + off, k);
        }
    }
}

} // verus!
