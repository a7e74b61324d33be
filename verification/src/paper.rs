//! Simulated trading: slippage, fills of grid levels, and the trade history.
use std::collections::{HashSet, VecDeque};
use vstd::prelude::*;

use crate::fixed::{lemma_quot_by_count, Fixed, SCALE};
use crate::grid::DynamicGrid;
use crate::models::{GridLevel, MarketState, Side, TradeRecord};
use crate::number::{clamp, clamped, larger, lit, max_of, min_of, ratio, smaller};
use crate::number::{law_clamped_in_range, law_larger, law_smaller, lemma_not_below};
use crate::number::{lemma_not_below_chain, lemma_total_push, total};
use crate::number::{Number, Ordered, Total, Value};
use crate::stamp::{is_random_id, is_time, random_id, timestamp};

verus! {

broadcast use vstd::std_specs::hash::group_hash_axioms;

/// The multiplier that spreads the keys of a grid over its identifier.
pub const KEY_MULTIPLIER: u64 = 2_654_435_761;

// Slippage
/// The impact of a trade on the price.
pub open spec fn base_impact<S: Value>(price: S, trade_val: S, base_slip: S) -> S {
    price.prod(base_slip).prod(
        clamped(trade_val.quot(S::count(1000)), ratio(1, 100), S::count(1)),
    )
}

/// By how much the execution is off: half the spread, the impact, the impact
/// once more for what the wicks put on top of one, and a fifth of the impact up
/// or down by the price's fraction.
pub open spec fn deviation<S: Value>(
    price: S,
    spread_bps: S,
    trade_val: S,
    base_slip: S,
    wick_mult: S,
) -> S {
    let impact = base_impact(price, trade_val, base_slip);
    let sign = if ratio::<S>(5, 10).below(price.frac_part()) {
        S::count(1)
    } else {
        S::count(1).negation()
    };
    price.prod(spread_bps).quot(S::count(20_000)).sum(impact).sum(
        impact.prod(wick_mult.diff(S::count(1))),
    ).sum(impact.prod(ratio(2, 10)).prod(sign))
}

/// The price at which an order is executed: worse by the deviation, and never
/// under a ten-thousandth.
pub open spec fn executed_at<S: Value>(price: S, side: Side, off: S) -> S {
    larger(
        match side {
            Side::Buy => price.sum(off),
            Side::Sell => price.diff(off),
        },
        ratio(1, 10_000),
    )
}

/// The execution price of an order and the size of the deviation.
pub open spec fn slipped<S: Value>(
    price: S,
    side: Side,
    spread_bps: S,
    trade_val: S,
    base_slip: S,
    wick_mult: S,
) -> (S, S) {
    let off = deviation(price, spread_bps, trade_val, base_slip, wick_mult);
    (executed_at(price, side, off), off.size())
}

/// The execution price of an order and the size of the deviation.
pub fn apply_slippage<S: Number>(
    price: S,
    side: &Side,
    spread_bps: S,
    trade_val: S,
    base_slip: S,
    wick_mult: S,
) -> (r: (S, S))
    ensures
        r == slipped(price, *side, spread_bps, trade_val, base_slip, wick_mult),
{
    let half_spread = price.times(spread_bps).over(S::from_u64(20_000));
    let impact_f = clamp(trade_val.over(S::from_u64(1000)), lit(1, 100), S::from_u64(1));
    let base_impact = price.times(base_slip).times(impact_f);
    let wick_pen = base_impact.times(wick_mult.minus(S::from_u64(1)));
    let noise_sign = if lit::<S>(5, 10).lt(price.fract()) {
        S::from_u64(1)
    } else {
        S::from_u64(1).negate()
    };
    let noise = base_impact.times(lit(2, 10)).times(noise_sign);
    let total = half_spread.plus(base_impact).plus(wick_pen).plus(noise);
    let exec = match side {
        Side::Buy => price.plus(total),
        Side::Sell => price.minus(total),
    };
    (max_of(exec, lit(1, 10_000)), total.abs())
}

/// An execution price is never under a ten-thousandth, and the slippage never
/// negative.
pub proof fn law_execution_stays_positive<S: Ordered>(price: S, side: Side, off: S)
    ensures
        !executed_at(price, side, off).below(ratio(1, 10_000)),
        !off.size().below(S::count(0)),
{
    law_larger(
        match side {
            Side::Buy => price.sum(off),
            Side::Sell => price.diff(off),
        },
        ratio(1, 10_000),
    );
    S::law_size(off);
}

// Fills
/// What decides over the fills of one price: the price, the position size, the
/// market, the least value of an order and the base slippage.
#[derive(Debug, Clone, Copy)]
pub struct FillTerms<S> {
    pub price: S,
    pub pos_size: S,
    pub state: MarketState<S>,
    pub min_notional: S,
    pub base_slip: S,
}

/// A level that was filled.
#[derive(Debug, Clone, Copy)]
pub struct Fill<S> {
    pub side: Side,
    pub key: u64,
    pub price: S,
    pub exec_price: S,
    pub qty: S,
    pub value: S,
    pub slippage: S,
}

/// The part of a trader that fills change.
pub ghost struct Book<S> {
    pub capital: S,
    pub base_held: S,
    pub buys: Set<u64>,
    pub sells: Set<u64>,
    pub total_slip: S,
    pub counter: int,
}

/// The price in ten-thousandths, by which a level is known.
pub open spec fn key_of<S: Value>(price: S) -> u64 {
    price.prod(S::count(10_000)).nearest().whole()
}

/// The price of a level at which the market makes it due.
pub open spec fn is_due<S: Value>(book: Book<S>, lv: GridLevel<S>, price: S) -> bool {
    match lv.side {
        Side::Buy => price.at_most(lv.price) && !book.buys.contains(key_of(lv.price)),
        Side::Sell => lv.price.at_most(price) && !book.sells.contains(key_of(lv.price)),
    }
}

/// What a buy costs: the position size, or the capital where that is less.
pub open spec fn cost_of<S: Value>(book: Book<S>, t: FillTerms<S>) -> S {
    smaller(t.pos_size, book.capital)
}

/// How much a sell sells: what the position size buys at the level, or the
/// holdings where they are less.
pub open spec fn quantity_of<S: Value>(book: Book<S>, lv: GridLevel<S>, t: FillTerms<S>) -> S {
    smaller(book.base_held, t.pos_size.quot(lv.price))
}

/// The deviation of an order of some value at a level.
pub open spec fn deviation_at<S: Value>(lv: GridLevel<S>, value: S, t: FillTerms<S>) -> S {
    deviation(
        lv.price,
        t.state.spread_bps,
        value,
        t.base_slip,
        t.state.wick_profile.slippage_factor(),
    )
}

/// The fill of a level, if it fills. A buy does not fill far below the long
/// average, a sell not without holdings, and neither under the least value.
pub open spec fn fill_of<S: Value>(
    book: Book<S>,
    lv: GridLevel<S>,
    t: FillTerms<S>,
) -> Option<Fill<S>> {
    if !is_due(book, lv, t.price) {
        None
    } else {
        match lv.side {
            Side::Buy => {
                let cost = cost_of(book, t);
                if t.price.below(t.state.ema50.prod(ratio(97, 100))) || cost.below(
                    t.min_notional,
                ) {
                    None
                } else {
                    let off = deviation_at(lv, cost, t);
                    let exec = executed_at(lv.price, Side::Buy, off);
                    Some(
                        Fill {
                            side: Side::Buy,
                            key: key_of(lv.price),
                            price: lv.price,
                            exec_price: exec,
                            qty: cost.quot(exec),
                            value: cost,
                            slippage: off.size(),
                        },
                    )
                }
            },
            Side::Sell => {
                let qty = quantity_of(book, lv, t);
                let val = qty.prod(lv.price);
                if book.base_held.below(S::tiny()) || val.below(t.min_notional) {
                    None
                } else {
                    let off = deviation_at(lv, val, t);
                    let exec = executed_at(lv.price, Side::Sell, off);
                    Some(
                        Fill {
                            side: Side::Sell,
                            key: key_of(lv.price),
                            price: lv.price,
                            exec_price: exec,
                            qty,
                            value: qty.prod(exec),
                            slippage: off.size(),
                        },
                    )
                }
            },
        }
    }
}

/// The book after a fill: the money and the holdings have moved, the level is
/// filled on its side and free on the other.
pub open spec fn after_fill<S: Value>(book: Book<S>, f: Fill<S>) -> Book<S> {
    match f.side {
        Side::Buy => Book {
            capital: book.capital.diff(f.value),
            base_held: book.base_held.sum(f.qty),
            buys: book.buys.insert(f.key),
            sells: book.sells.remove(f.key),
            total_slip: book.total_slip.sum(f.slippage),
            counter: book.counter + 1,
        },
        Side::Sell => Book {
            capital: book.capital.sum(f.value),
            base_held: book.base_held.diff(f.qty),
            buys: book.buys.remove(f.key),
            sells: book.sells.insert(f.key),
            total_slip: book.total_slip.sum(f.slippage),
            counter: book.counter + 1,
        },
    }
}

/// The book after the levels were tried in order.
pub open spec fn book_after<S: Value>(
    book: Book<S>,
    levels: Seq<GridLevel<S>>,
    t: FillTerms<S>,
) -> Book<S>
    decreases levels.len(),
{
    if levels.len() == 0 {
        book
    } else {
        let before = book_after(book, levels.drop_last(), t);
        match fill_of(before, levels.last(), t) {
            Some(f) => after_fill(before, f),
            None => before,
        }
    }
}

/// The fills when the levels are tried in order.
pub open spec fn fills_of<S: Value>(
    book: Book<S>,
    levels: Seq<GridLevel<S>>,
    t: FillTerms<S>,
) -> Seq<Fill<S>>
    decreases levels.len(),
{
    if levels.len() == 0 {
        Seq::empty()
    } else {
        let before = book_after(book, levels.drop_last(), t);
        let fills = fills_of(book, levels.drop_last(), t);
        match fill_of(before, levels.last(), t) {
            Some(f) => fills.push(f),
            None => fills,
        }
    }
}

/// What a level puts into the identifier of its grid.
pub open spec fn id_share<S: Value>(lv: GridLevel<S>) -> u64 {
    key_of(lv.price).wrapping_mul(KEY_MULTIPLIER)
}

/// The identifier of a grid: the keys of its levels, multiplied and mixed.
pub open spec fn grid_id_of<S: Value>(levels: Seq<GridLevel<S>>) -> u64
    decreases levels.len(),
{
    if levels.len() == 0 {
        0
    } else {
        grid_id_of(levels.drop_last()) ^ id_share(levels.last())
    }
}

/// The book once a grid is in use: a grid with another identifier starts with
/// no level filled.
pub open spec fn book_in_grid<S: Value>(
    book: Book<S>,
    grid_id: u64,
    levels: Seq<GridLevel<S>>,
) -> Book<S> {
    if grid_id_of(levels) == grid_id {
        book
    } else {
        Book { buys: Set::empty(), sells: Set::empty(), ..book }
    }
}

/// Capital and holdings of a book at a price.
pub open spec fn worth<S: Value>(book: Book<S>, price: S) -> S {
    book.capital.sum(book.base_held.prod(price))
}

/// The last `max` elements.
pub open spec fn newest<T>(s: Seq<T>, max: nat) -> Seq<T> {
    if s.len() > max {
        s.skip(s.len() - max)
    } else {
        s
    }
}

/// The record of a fill, made under an identifier at a time.
pub open spec fn records_fill<S: Value>(
    r: TradeRecord<S>,
    f: Fill<S>,
    symbol: Seq<char>,
    state: MarketState<S>,
) -> bool {
    shows_entry(r, entry_of(f, state), symbol)
}

/// A fill with what the market was at the time.
pub ghost struct Entry<S> {
    pub fill: Fill<S>,
    pub slip_mult: S,
    pub label: Seq<char>,
}

/// The entry of a fill in a market.
pub open spec fn entry_of<S: Value>(f: Fill<S>, state: MarketState<S>) -> Entry<S> {
    Entry {
        fill: f,
        slip_mult: state.wick_profile.slippage_factor(),
        label: state.trend_signal.caption(),
    }
}

/// The entries of fills in a market.
pub open spec fn entries_of<S: Value>(fills: Seq<Fill<S>>, state: MarketState<S>) -> Seq<Entry<S>> {
    Seq::new(fills.len(), |i: int| entry_of(fills[i], state))
}

/// Whether a trade of a symbol tells an entry.
pub open spec fn shows_entry<S: Value>(r: TradeRecord<S>, e: Entry<S>, symbol: Seq<char>) -> bool {
    &&& shows_fill(r, e.fill)
    &&& r.symbol@ == symbol
    &&& r.slip_mult == e.slip_mult
    &&& r.trend_signal@ == e.label
    &&& r.binance_oid is None
}

/// Whether trades of a symbol tell entries, one each, in order.
pub open spec fn history_shows<S: Value>(
    trades: Seq<TradeRecord<S>>,
    entries: Seq<Entry<S>>,
    symbol: Seq<char>,
) -> bool {
    &&& trades.len() == entries.len()
    &&& forall|i: int|
        0 <= i < entries.len() ==> shows_entry(#[trigger] trades[i], entries[i], symbol)
}

/// Whether a trade has the figures of a fill.
pub open spec fn shows_fill<S: Value>(r: TradeRecord<S>, f: Fill<S>) -> bool {
    &&& r.side == f.side
    &&& r.price == f.price
    &&& r.exec_price == f.exec_price
    &&& r.qty == f.qty
    &&& r.value_usdt == f.value
    &&& r.slippage == f.slippage
}

/// A history grows with the entries that come in.
pub proof fn lemma_history_grows<S: Value>(
    trades: Seq<TradeRecord<S>>,
    entries: Seq<Entry<S>>,
    new_trades: Seq<TradeRecord<S>>,
    new_entries: Seq<Entry<S>>,
    symbol: Seq<char>,
    max: nat,
)
    requires
        history_shows(trades, entries, symbol),
        history_shows(new_trades, new_entries, symbol),
    ensures
        history_shows(
            newest(trades + new_trades, max),
            newest(entries + new_entries, max),
            symbol,
        ),
{
    let all_trades = trades + new_trades;
    let all_entries = entries + new_entries;
    assert forall|i: int| 0 <= i < all_entries.len() implies shows_entry(
        #[trigger] all_trades[i],
        all_entries[i],
        symbol,
    ) by {
        if i < entries.len() {
            assert(all_trades[i] == trades[i]);
        } else {
            assert(all_trades[i] == new_trades[i - entries.len()]);
        }
    }
}

/// How many of the entries were on a side.
pub open spec fn count_entries<S: Value>(entries: Seq<Entry<S>>, side: Side) -> nat
    decreases entries.len(),
{
    if entries.len() == 0 {
        0
    } else {
        count_entries(entries.drop_last(), side) + if entries.last().fill.side == side {
            1nat
        } else {
            0nat
        }
    }
}

/// The values of the entries.
pub open spec fn entry_values<S: Value>(entries: Seq<Entry<S>>) -> Seq<S> {
    Seq::new(entries.len(), |i: int| entries[i].fill.value)
}

/// The statistics of a history are those of its entries.
pub proof fn law_history_tells_fills<S: Value>(
    trades: Seq<TradeRecord<S>>,
    entries: Seq<Entry<S>>,
    symbol: Seq<char>,
    side: Side,
)
    requires
        history_shows(trades, entries, symbol),
    ensures
        count_side(trades, side) == count_entries(entries, side),
        values_of(trades) == entry_values(entries),
    decreases entries.len(),
{
    assert(values_of(trades) =~= entry_values(entries)) by {
        assert forall|i: int| 0 <= i < entries.len() implies trades[i].value_usdt
            == entries[i].fill.value by {
            assert(shows_entry(trades[i], entries[i], symbol));
        }
    }
    if entries.len() > 0 {
        assert(shows_entry(trades[trades.len() - 1], entries.last(), symbol));
        assert forall|i: int| 0 <= i < entries.drop_last().len() implies shows_entry(
            #[trigger] trades.drop_last()[i],
            entries.drop_last()[i],
            symbol,
        ) by {
            assert(shows_entry(trades[i], entries[i], symbol));
        }
        law_history_tells_fills(trades.drop_last(), entries.drop_last(), symbol, side);
    }
}

/// The record of a fill under an identifier, at a time.
pub fn record_of_fill<S: Number>(
    f: &Fill<S>,
    id: String,
    time: String,
    symbol: &str,
    state: &MarketState<S>,
) -> (r: TradeRecord<S>)
    ensures
        records_fill(r, *f, symbol@, *state),
        r.id == id,
        r.time == time,
{
    TradeRecord {
        id,
        time,
        side: f.side,
        symbol: symbol.to_owned(),
        price: f.price,
        exec_price: f.exec_price,
        qty: f.qty,
        value_usdt: f.value,
        slippage: f.slippage,
        slip_mult: state.wick_profile.slippage_mult(),
        trend_signal: state.trend_signal.label().to_owned(),
        binance_oid: None,
    }
}

/// How many of the trades were made on a side.
pub open spec fn count_side<S: Value>(trades: Seq<TradeRecord<S>>, side: Side) -> nat
    decreases trades.len(),
{
    if trades.len() == 0 {
        0
    } else {
        count_side(trades.drop_last(), side) + if trades.last().side == side {
            1nat
        } else {
            0nat
        }
    }
}

/// The values of the trades.
pub open spec fn values_of<S: Value>(trades: Seq<TradeRecord<S>>) -> Seq<S> {
    Seq::new(trades.len(), |i: int| trades[i].value_usdt)
}

/// The values of the trades, those of sells negated.
pub open spec fn signed_values_of<S: Value>(trades: Seq<TradeRecord<S>>) -> Seq<S> {
    Seq::new(
        trades.len(),
        |i: int|
            match trades[i].side {
                Side::Buy => trades[i].value_usdt,
                Side::Sell => trades[i].value_usdt.negation(),
            },
    )
}

/// A trader without real orders.
pub struct PaperTrader<S> {
    pub capital: S,
    pub base_held: S,
    /// The latest trades, oldest first.
    pub trades: VecDeque<TradeRecord<S>>,
    pub max_history: usize,
    pub grid_id: u64,
    pub filled_buys: HashSet<u64>,
    pub filled_sells: HashSet<u64>,
    pub total_slip: S,
    pub counter: u64,
    pub symbol: String,
}

impl<S: Value> PaperTrader<S> {
    pub open spec fn book(self) -> Book<S> {
        Book {
            capital: self.capital,
            base_held: self.base_held,
            buys: self.filled_buys@,
            sells: self.filled_sells@,
            total_slip: self.total_slip,
            counter: self.counter as int,
        }
    }

    /// The book once a grid is in use.
    pub open spec fn book_for(self, levels: Seq<GridLevel<S>>) -> Book<S> {
        book_in_grid(self.book(), self.grid_id, levels)
    }

    /// No level is filled on both sides, and the history is not over its size.
    pub open spec fn wf(self) -> bool {
        &&& self.filled_buys@.disjoint(self.filled_sells@)
        &&& self.trades@.len() <= self.max_history
    }

    /// Whether a trader of a symbol has its capital and nothing else yet.
    pub open spec fn begins_with(self, capital: S, max_history: usize, symbol: Seq<char>) -> bool {
        &&& self.capital == capital
        &&& self.base_held == S::count(0)
        &&& self.trades@ == Seq::<TradeRecord<S>>::empty()
        &&& self.max_history == max_history
        &&& self.grid_id == 0
        &&& self.filled_buys@ == Set::<u64>::empty()
        &&& self.filled_sells@ == Set::<u64>::empty()
        &&& self.total_slip == S::count(0)
        &&& self.counter == 0
        &&& self.symbol@ == symbol
    }

    /// Whether a trade came to the history, which keeps the newest, and nothing else
    /// changed.
    pub open spec fn notes_trade(self, after: Self, r: TradeRecord<S>) -> bool {
        &&& after.trades@ == newest(self.trades@.push(r), self.max_history as nat)
        &&& after.book() == self.book()
        &&& after.max_history == self.max_history
        &&& after.grid_id == self.grid_id
        &&& after.symbol == self.symbol
    }

    /// Capital and holdings at a price.
    pub open spec fn value_at(self, price: S) -> S {
        self.capital.sum(self.base_held.prod(price))
    }

    /// Whether figures are those of the trader: the number of trades ever made, the buys,
    /// sells and volume in the history, and the slippage ever paid.
    pub open spec fn has_stats(self, r: (u64, usize, usize, S, S)) -> bool {
        &&& r.0 == self.counter
        &&& r.1 == count_side(self.trades@, Side::Buy)
        &&& r.2 == count_side(self.trades@, Side::Sell)
        &&& r.3 == total(values_of(self.trades@))
        &&& r.4 == self.total_slip
    }

    /// Whether the history got another size, and kept its newest trades.
    pub open spec fn keeps_newest(self, after: Self, max_history: usize) -> bool {
        &&& after.trades@ == newest(self.trades@, max_history as nat)
        &&& after.max_history == max_history
        &&& after.book() == self.book()
        &&& after.grid_id == self.grid_id
        &&& after.symbol == self.symbol
    }

    /// Whether a grid is in use, with its levels free where it is another one.
    pub open spec fn turns_to(self, after: Self, levels: Seq<GridLevel<S>>) -> bool {
        &&& after.grid_id == grid_id_of(levels)
        &&& after.book() == self.book_for(levels)
        &&& after.trades == self.trades
        &&& after.max_history == self.max_history
        &&& after.symbol == self.symbol
    }

    /// Whether a level is tried, and filled where it is due and worth it.
    pub open spec fn tries_level(
        self,
        after: Self,
        lv: GridLevel<S>,
        t: FillTerms<S>,
        r: Option<Fill<S>>,
    ) -> bool {
        &&& r == fill_of(self.book(), lv, t)
        &&& after.book() == match r {
            Some(f) => after_fill(self.book(), f),
            None => self.book(),
        }
        &&& after.trades == self.trades
        &&& after.max_history == self.max_history
        &&& after.grid_id == self.grid_id
        &&& after.symbol == self.symbol
    }

    /// Whether fills of a grid make the trader `after`, and are recorded.
    pub open spec fn trades_grid(
        self,
        after: Self,
        levels: Seq<GridLevel<S>>,
        t: FillTerms<S>,
        records: Seq<TradeRecord<S>>,
    ) -> bool {
        let start = self.book_for(levels);
        let fills = fills_of(start, levels, t);
        &&& after.book() == book_after(start, levels, t)
        &&& records.len() == fills.len()
        &&& forall|i: int|
            0 <= i < fills.len() ==> records_fill(
                #[trigger] records[i],
                fills[i],
                self.symbol@,
                t.state,
            ) && is_random_id(records[i].id@) && is_time(records[i].time@)
        &&& after.trades@ == newest(self.trades@ + records, self.max_history as nat)
        &&& after.grid_id == grid_id_of(levels)
        &&& after.max_history == self.max_history
        &&& after.symbol == self.symbol
        &&& after.counter == self.counter + records.len()
    }

    /// What the trades in the history gained at a price, in percent of the value
    /// without them.
    pub open spec fn gain_at(self, price: S) -> S {
        self.value_at(price).diff(self.value_before(price)).quot(
            larger(self.value_before(price), S::count(1)),
        ).prod(S::count(100))
    }

    /// The value at a price without what the trades in the history moved.
    pub open spec fn value_before(self, price: S) -> S {
        self.value_at(price).diff(total(signed_values_of(self.trades@)))
    }
}

impl<S: Number> PaperTrader<S> {
    pub fn new(capital: S, max_history: usize, symbol: &str) -> (r: Self)
        ensures
            r.wf(),
            r.begins_with(capital, max_history, symbol@),
    {
        PaperTrader {
            capital,
            base_held: S::from_u64(0),
            trades: VecDeque::new(),
            max_history,
            grid_id: 0,
            filled_buys: HashSet::new(),
            filled_sells: HashSet::new(),
            total_slip: S::from_u64(0),
            counter: 0,
            symbol: symbol.to_owned(),
        }
    }

    /// The price in ten-thousandths.
    pub fn key(price: S) -> (r: u64)
        ensures
            r == key_of(price),
    {
        price.times(S::from_u64(10_000)).round().to_u64()
    }

    /// Frees all levels when the grid is another one than before.
    pub fn reset_for_grid(&mut self, grid: &DynamicGrid<S>)
        ensures
            old(self).turns_to(*final(self), grid.levels@),
            old(self).wf() ==> final(self).wf(),
    {
        let mut id: u64 = 0;
        let mut i: usize = 0;
        while i < grid.levels.len()
            invariant
                i <= grid.levels@.len(),
                id == grid_id_of(grid.levels@.take(i as int)),
            decreases grid.levels.len() - i,
        {
            assert(grid.levels@.take(i + 1).drop_last() =~= grid.levels@.take(i as int));
            id = id ^ Self::key(grid.levels[i].price).wrapping_mul(KEY_MULTIPLIER);
            i += 1;
        }
        assert(grid.levels@.take(i as int) =~= grid.levels@);
        if id != self.grid_id {
            self.grid_id = id;
            self.filled_buys.clear();
            self.filled_sells.clear();
        }
    }

    /// Gives the history another size; the oldest leave where it gets too small.
    pub fn resize_history(&mut self, max_history: usize)
        ensures
            old(self).keeps_newest(*final(self), max_history),
            old(self).wf() ==> final(self).wf(),
    {
        let ghost before = self.trades@;
        self.max_history = max_history;
        assert(before.skip(0) =~= before);
        while self.trades.len() > max_history
            invariant
                self.max_history == max_history,
                self.book() == old(self).book(),
                self.grid_id == old(self).grid_id,
                self.symbol == old(self).symbol,
                self.trades@.len() <= before.len(),
                self.trades@ == before.skip(before.len() - self.trades@.len()),
                self.trades@.len() < before.len() ==> self.trades@.len() >= max_history,
            decreases self.trades.len(),
        {
            let ghost len = self.trades@.len();
            let _oldest = self.trades.pop_front();
            assert(self.trades@ =~= before.skip(before.len() - len + 1));
        }
        assert(self.trades@ =~= newest(before, max_history as nat));
    }

    /// Puts a trade to the history; the oldest leave when it is full.
    pub fn push_trade(&mut self, r: TradeRecord<S>)
        requires
            old(self).max_history > 0,
        ensures
            old(self).notes_trade(*final(self), r),
    {
        let ghost before = self.trades@;
        let ghost max = self.max_history as nat;
        while self.trades.len() >= self.max_history
            invariant
                max > 0,
                self.max_history == max,
                self.book() == old(self).book(),
                self.grid_id == old(self).grid_id,
                self.symbol == old(self).symbol,
                self.trades@.len() <= before.len(),
                self.trades@ == before.skip(before.len() - self.trades@.len()),
                self.trades@.len() < before.len() ==> self.trades@.len() + 1 >= max,
            decreases self.trades.len(),
        {
            let ghost len = self.trades@.len();
            let _oldest = self.trades.pop_front();
            assert(self.trades@ =~= before.skip(before.len() - len + 1));
        }
        let ghost kept = self.trades@;
        self.trades.push_back(r);
        assert(self.trades@ =~= newest(before.push(r), max));
    }

    /// Tries one level: fills it where it is due and worth it.
    pub fn fill_level(&mut self, lv: &GridLevel<S>, t: &FillTerms<S>) -> (r: Option<Fill<S>>)
        requires
            old(self).counter < u64::MAX,
        ensures
            old(self).tries_level(*final(self), *lv, *t, r),
            old(self).wf() ==> final(self).wf(),
    {
        let wick_mult = t.state.wick_profile.slippage_mult();
        let key = Self::key(lv.price);
        match lv.side {
            Side::Buy => {
                if !t.price.le(lv.price) || self.filled_buys.contains(&key) {
                    return None;
                }
                if t.price.lt(t.state.ema50.times(lit(97, 100))) {
                    return None;
                }
                let cost = min_of(t.pos_size, self.capital);
                if cost.lt(t.min_notional) {
                    return None;
                }
                let (exec_p, slip) = apply_slippage(
                    lv.price,
                    &Side::Buy,
                    t.state.spread_bps,
                    cost,
                    t.base_slip,
                    wick_mult,
                );
                let qty = cost.over(exec_p);
                self.capital = self.capital.minus(cost);
                self.base_held = self.base_held.plus(qty);
                self.total_slip = self.total_slip.plus(slip);
                self.filled_buys.insert(key);
                self.filled_sells.remove(&key);
                self.counter += 1;
                Some(
                    Fill {
                        side: Side::Buy,
                        key,
                        price: lv.price,
                        exec_price: exec_p,
                        qty,
                        value: cost,
                        slippage: slip,
                    },
                )
            },
            Side::Sell => {
                if !lv.price.le(t.price) || self.filled_sells.contains(&key) {
                    return None;
                }
                if self.base_held.lt(S::epsilon()) {
                    return None;
                }
                let qty = min_of(self.base_held, t.pos_size.over(lv.price));
                let val = qty.times(lv.price);
                if val.lt(t.min_notional) {
                    return None;
                }
                let (exec_p, slip) = apply_slippage(
                    lv.price,
                    &Side::Sell,
                    t.state.spread_bps,
                    val,
                    t.base_slip,
                    wick_mult,
                );
                let rev = qty.times(exec_p);
                self.capital = self.capital.plus(rev);
                self.base_held = self.base_held.minus(qty);
                self.total_slip = self.total_slip.plus(slip);
                self.filled_sells.insert(key);
                self.filled_buys.remove(&key);
                self.counter += 1;
                Some(
                    Fill {
                        side: Side::Sell,
                        key,
                        price: lv.price,
                        exec_price: exec_p,
                        qty,
                        value: rev,
                        slippage: slip,
                    },
                )
            },
        }
    }

    /// Fills the levels of a grid that a price makes due, and records the
    /// trades. The identifiers and times come from chance and the clock; all
    /// else is settled by the trader, the grid and the terms.
    pub fn simulate_fills(
        &mut self,
        grid: &DynamicGrid<S>,
        price: S,
        pos_size: S,
        state: &MarketState<S>,
        min_notional: S,
        base_slip: S,
    ) -> (r: Vec<TradeRecord<S>>)
        requires
            old(self).wf(),
            old(self).max_history > 0,
            old(self).counter + grid.levels@.len() <= u64::MAX,
        ensures
            final(self).wf(),
            old(self).trades_grid(
                *final(self),
                grid.levels@,
                (FillTerms { price, pos_size, state: *state, min_notional, base_slip }),
                r@,
            ),
            r@.len() <= grid.levels@.len(),
    {
        let t = FillTerms { price, pos_size, state: *state, min_notional, base_slip };
        let symbol = self.symbol.clone();
        self.reset_for_grid(grid);
        let ghost start = self.book();
        let mut records: Vec<TradeRecord<S>> = Vec::new();
        let mut i: usize = 0;
        while i < grid.levels.len()
            invariant
                i <= grid.levels@.len(),
                self.wf(),
                t == (FillTerms { price, pos_size, state: *state, min_notional, base_slip }),
                start.counter == old(self).counter,
                old(self).counter + grid.levels@.len() <= u64::MAX,
                self.counter == old(self).counter + records@.len(),
                records@.len() <= i,
                self.book() == book_after(start, grid.levels@.take(i as int), t),
                records@.len() == fills_of(start, grid.levels@.take(i as int), t).len(),
                forall|j: int|
                    0 <= j < records@.len() ==> records_fill(
                        #[trigger] records@[j],
                        fills_of(start, grid.levels@.take(i as int), t)[j],
                        symbol@,
                        *state,
                    ) && is_random_id(records@[j].id@) && is_time(records@[j].time@),
                self.trades == old(self).trades,
                self.max_history == old(self).max_history,
                self.grid_id == grid_id_of(grid.levels@),
                self.symbol == old(self).symbol,
            decreases grid.levels.len() - i,
        {
            assert(grid.levels@.take(i + 1).drop_last() =~= grid.levels@.take(i as int));
            if let Some(f) = self.fill_level(&grid.levels[i], &t) {
                let r = record_of_fill(&f, random_id(), timestamp(), symbol.as_str(), state);
                records.push(r);
            }
            i += 1;
        }
        assert(grid.levels@.take(i as int) =~= grid.levels@);
        let ghost done = self.book();
        let ghost max = self.max_history as nat;
        i = 0;
        assert(self.trades@ =~= newest(old(self).trades@ + records@.take(0), max));
        while i < records.len()
            invariant
                i <= records@.len(),
                max == self.max_history,
                max > 0,
                self.book() == done,
                self.trades@ == newest(old(self).trades@ + records@.take(i as int), max),
                self.max_history == old(self).max_history,
                self.grid_id == grid_id_of(grid.levels@),
                self.symbol == old(self).symbol,
            decreases records.len() - i,
        {
            let r = records[i].duplicate();
            self.push_trade(r);
            i += 1;
            assert(self.trades@ =~= newest(old(self).trades@ + records@.take(i as int), max));
        }
        assert(records@.take(i as int) =~= records@);
        records
    }

    pub fn total_value(&self, price: S) -> (r: S)
        ensures
            r == self.value_at(price),
    {
        self.capital.plus(self.base_held.times(price))
    }

    /// What the trades in the history gained, in percent of the value without
    /// them.
    pub fn pnl_pct(&self, price: S) -> (r: S)
        ensures
            r == self.gain_at(price),
    {
        let mut moved = S::from_u64(0);
        let ghost values = signed_values_of(self.trades@);
        let mut i: usize = 0;
        assert(values.take(0) =~= Seq::empty());
        while i < self.trades.len()
            invariant
                i <= self.trades@.len(),
                values == signed_values_of(self.trades@),
                moved == total(values.take(i as int)),
            decreases self.trades.len() - i,
        {
            proof {
                assert(values.take(i + 1) =~= values.take(i as int).push(values[i as int]));
                lemma_total_push(values.take(i as int), values[i as int]);
            }
            let trade = &self.trades[i];
            let v = match trade.side {
                Side::Buy => trade.value_usdt,
                Side::Sell => trade.value_usdt.negate(),
            };
            moved = moved.plus(v);
            i += 1;
        }
        assert(values.take(i as int) =~= values);
        let init = self.capital.plus(self.base_held.times(price)).minus(moved);
        self.total_value(price).minus(init).over(max_of(init, S::from_u64(1))).times(
            S::from_u64(100),
        )
    }

    /// The number of trades ever made, the buys, sells and volume in the
    /// history, and the slippage ever paid.
    pub fn stats(&self) -> (r: (u64, usize, usize, S, S))
        ensures
            self.has_stats(r),
    {
        let mut buys: usize = 0;
        let mut sells: usize = 0;
        let mut volume = S::from_u64(0);
        let ghost values = values_of(self.trades@);
        let mut i: usize = 0;
        assert(values.take(0) =~= Seq::empty());
        while i < self.trades.len()
            invariant
                i <= self.trades@.len(),
                values == values_of(self.trades@),
                buys + sells == i,
                buys == count_side(self.trades@.take(i as int), Side::Buy),
                sells == count_side(self.trades@.take(i as int), Side::Sell),
                volume == total(values.take(i as int)),
            decreases self.trades.len() - i,
        {
            proof {
                assert(values.take(i + 1) =~= values.take(i as int).push(values[i as int]));
                lemma_total_push(values.take(i as int), values[i as int]);
                assert(self.trades@.take(i + 1).drop_last() =~= self.trades@.take(i as int));
            }
            let trade = &self.trades[i];
            match trade.side {
                Side::Buy => buys += 1,
                Side::Sell => sells += 1,
            }
            volume = volume.plus(trade.value_usdt);
            i += 1;
        }
        assert(values.take(i as int) =~= values);
        assert(self.trades@.take(i as int) =~= self.trades@);
        (self.counter, buys, sells, volume, self.total_slip)
    }
}

/// The book after fills, one after the other.
pub open spec fn replay<S: Value>(book: Book<S>, fills: Seq<Fill<S>>) -> Book<S>
    decreases fills.len(),
{
    if fills.len() == 0 {
        book
    } else {
        after_fill(replay(book, fills.drop_last()), fills.last())
    }
}

/// The fills account for every change of the book: replaying them gives the
/// book, no more fills come than there are levels, and each counts once.
pub proof fn law_fills_account_for_book<S: Value>(
    book: Book<S>,
    levels: Seq<GridLevel<S>>,
    t: FillTerms<S>,
)
    ensures
        book_after(book, levels, t) == replay(book, fills_of(book, levels, t)),
        fills_of(book, levels, t).len() <= levels.len(),
        book_after(book, levels, t).counter == book.counter + fills_of(book, levels, t).len(),
    decreases levels.len(),
{
    if levels.len() > 0 {
        let front = levels.drop_last();
        law_fills_account_for_book(book, front, t);
        match fill_of(book_after(book, front, t), levels.last(), t) {
            Some(f) => {
                assert(fills_of(book, levels, t).drop_last() =~= fills_of(book, front, t));
            },
            None => {},
        }
    }
}

/// A level that was filled is not due again on its side, at any price, and the
/// level at the same price on the other side is free.
pub proof fn law_filled_level_is_not_due<S: Value>(
    book: Book<S>,
    lv: GridLevel<S>,
    t: FillTerms<S>,
    price: S,
)
    requires
        fill_of(book, lv, t) is Some,
    ensures
        !is_due(after_fill(book, fill_of(book, lv, t)->0), lv, price),
        ({
            let after = after_fill(book, fill_of(book, lv, t)->0);
            match lv.side {
                Side::Buy => !after.sells.contains(key_of(lv.price)),
                Side::Sell => !after.buys.contains(key_of(lv.price)),
            }
        }),
{
}

/// Filling keeps the two sides apart: no level is filled on both.
pub proof fn law_sides_stay_disjoint<S: Value>(
    book: Book<S>,
    levels: Seq<GridLevel<S>>,
    t: FillTerms<S>,
)
    requires
        book.buys.disjoint(book.sells),
    ensures
        book_after(book, levels, t).buys.disjoint(book_after(book, levels, t).sells),
    decreases levels.len(),
{
    if levels.len() > 0 {
        law_sides_stay_disjoint(book, levels.drop_last(), t);
    }
}

/// A buy never costs more than the capital and leaves it not negative; a sell
/// never takes more than the holdings and leaves them not negative.
pub proof fn law_fill_is_covered<S: Ordered>(book: Book<S>, lv: GridLevel<S>, t: FillTerms<S>)
    requires
        fill_of(book, lv, t) is Some,
    ensures
        ({
            let f = fill_of(book, lv, t)->0;
            match f.side {
                Side::Buy => !book.capital.below(f.value) && !after_fill(book, f).capital.below(
                    S::count(0),
                ),
                Side::Sell => !book.base_held.below(f.qty) && !after_fill(book, f).base_held.below(
                    S::count(0),
                ),
            }
        }),
{
    match lv.side {
        Side::Buy => {
            law_smaller(t.pos_size, book.capital);
            S::law_diff(book.capital, cost_of(book, t));
        },
        Side::Sell => {
            law_smaller(book.base_held, t.pos_size.quot(lv.price));
            S::law_diff(book.base_held, quantity_of(book, lv, t));
        },
    }
}

/// No order is filled under the least value.
pub proof fn law_fill_reaches_least_value<S: Value>(
    book: Book<S>,
    lv: GridLevel<S>,
    t: FillTerms<S>,
)
    requires
        fill_of(book, lv, t) is Some,
    ensures
        match lv.side {
            Side::Buy => !(fill_of(book, lv, t)->0).value.below(t.min_notional),
            Side::Sell => !(fill_of(book, lv, t)->0).qty.prod(lv.price).below(t.min_notional),
        },
{
}

/// The history never holds more than its size, and the newest trade is always
/// in it.
pub proof fn law_history_keeps_newest<T>(history: Seq<T>, news: Seq<T>, max: nat)
    requires
        max > 0,
    ensures
        newest(history + news, max).len() <= max,
        news.len() > 0 ==> newest(history + news, max).last() == news.last(),
        newest(history + news, max) == (history + news).skip(
            (history + news).len() - newest(history + news, max).len(),
        ),
{
    assert((history + news).skip(0) =~= history + news);
}

/// Taking up the grid that is already in use changes nothing.
pub proof fn law_same_grid_keeps_fills<S: Value>(
    trader: PaperTrader<S>,
    levels: Seq<GridLevel<S>>,
)
    requires
        trader.grid_id == grid_id_of(levels),
    ensures
        trader.book_for(levels) == trader.book(),
{
}

/// Whether every level has a positive price.
pub open spec fn prices_are_positive<S: Value>(levels: Seq<GridLevel<S>>) -> bool {
    forall|i: int| 0 <= i < levels.len() ==> S::count(0).below((#[trigger] levels[i]).price)
}

/// An account without debts: neither the capital nor the holdings are negative.
pub open spec fn is_solvent<S: Value>(book: Book<S>) -> bool {
    !book.capital.below(S::count(0)) && !book.base_held.below(S::count(0))
}

/// An account without debts has none after a fill: what is bought is paid from
/// the capital, and what is sold is taken from the holdings.
proof fn lemma_fill_keeps_solvent<S: Ordered>(book: Book<S>, lv: GridLevel<S>, t: FillTerms<S>)
    requires
        is_solvent(book),
        !t.pos_size.below(S::count(0)),
        S::count(0).below(lv.price),
        fill_of(book, lv, t) is Some,
    ensures
        is_solvent(after_fill(book, fill_of(book, lv, t)->0)),
{
    let zero = S::count(0);
    let least = ratio::<S>(1, 10_000);
    let f = fill_of(book, lv, t)->0;
    law_fill_is_covered(book, lv, t);
    S::law_positive_ratio(1, 10_000);
    S::law_strict(zero, least);
    S::law_compare(zero, least);
    let at = match lv.side {
        Side::Buy => lv.price.sum(deviation_at(lv, cost_of(book, t), t)),
        Side::Sell => lv.price.diff(
            deviation_at(lv, quantity_of(book, lv, t).prod(lv.price), t),
        ),
    };
    law_larger(at, least);
    S::law_compare(f.exec_price, least);
    S::law_chain(zero, least, f.exec_price);
    S::law_strict(zero, f.exec_price);
    S::law_compare(f.exec_price, zero);
    match lv.side {
        Side::Buy => {
            S::law_quot(f.value, f.exec_price);
            S::law_sum(book.base_held, f.qty);
        },
        Side::Sell => {
            S::law_quot(t.pos_size, lv.price);
            S::law_prod(f.qty, f.exec_price);
            S::law_sum(book.capital, f.value);
        },
    }
}

/// No price drives the account into debt: where it starts without any, the
/// levels have positive prices and the position size is not negative, neither
/// the capital nor the holdings get negative.
pub proof fn law_account_stays_solvent<S: Ordered>(
    book: Book<S>,
    levels: Seq<GridLevel<S>>,
    t: FillTerms<S>,
)
    requires
        is_solvent(book),
        !t.pos_size.below(S::count(0)),
        forall|i: int| 0 <= i < levels.len() ==> S::count(0).below((#[trigger] levels[i]).price),
    ensures
        is_solvent(book_after(book, levels, t)),
    decreases levels.len(),
{
    if levels.len() > 0 {
        let front = levels.drop_last();
        assert forall|i: int| 0 <= i < front.len() implies S::count(0).below(
            (#[trigger] front[i]).price,
        ) by {
            assert(front[i] == levels[i]);
        }
        law_account_stays_solvent(book, front, t);
        let last = levels.last();
        assert(last == levels[levels.len() - 1]);
        if fill_of(book_after(book, front, t), last, t) is Some {
            lemma_fill_keeps_solvent(book_after(book, front, t), last, t);
        }
    }
}

// What slippage does to a price
/// Whether an order can be looked at: it has a price, and neither the spread nor
/// the slippage nor its value is negative, and wicks make nothing cheaper.
pub open spec fn is_order<S: Value>(
    price: S,
    spread_bps: S,
    trade_val: S,
    base_slip: S,
    wick_mult: S,
) -> bool {
    &&& S::count(0).below(price)
    &&& !spread_bps.below(S::count(0))
    &&& !trade_val.below(S::count(0))
    &&& !base_slip.below(S::count(0))
    &&& !wick_mult.below(S::count(1))
}

/// The impact of an order is not negative.
proof fn lemma_impact_not_negative<S: Total>(price: S, trade_val: S, base_slip: S)
    requires
        S::count(0).below(price),
        !base_slip.below(S::count(0)),
    ensures
        !base_impact(price, trade_val, base_slip).below(S::count(0)),
{
    let (zero, lo) = (S::count(0), ratio::<S>(1, 100));
    let f = clamped(trade_val.quot(S::count(1000)), lo, S::count(1));
    S::law_strict(zero, price);
    S::law_prod(price, base_slip);
    S::law_positive_ratio(1, 100);
    S::law_strict(zero, lo);
    S::law_ratios(1, 100, 1, 1);
    S::law_ratio_of_one(1);
    law_clamped_in_range(trade_val.quot(S::count(1000)), lo, S::count(1));
    lemma_not_below_chain(f, lo, zero);
    S::law_prod(price.prod(base_slip), f);
}

/// The slippage does not fall when the spread or the wicks grow.
pub proof fn law_slippage_grows<S: Total>(
    price: S,
    trade_val: S,
    base_slip: S,
    spread_bps: S,
    wider: S,
    wick_mult: S,
    wilder: S,
)
    requires
        is_order(price, spread_bps, trade_val, base_slip, wick_mult),
        !wider.below(spread_bps),
        !wilder.below(wick_mult),
    ensures
        !deviation(price, wider, trade_val, base_slip, wilder).below(
            deviation(price, spread_bps, trade_val, base_slip, wick_mult),
        ),
{
    let (zero, one) = (S::count(0), S::count(1));
    let impact = base_impact(price, trade_val, base_slip);
    lemma_impact_not_negative(price, trade_val, base_slip);
    S::law_strict(zero, price);
    S::law_monotone(wider, spread_bps, price);
    S::law_counts(20_000, 20_000);
    let (a, b) = (price.prod(spread_bps), price.prod(wider));
    S::law_monotone(b, a, S::count(20_000));
    let (c, d) = (a.quot(S::count(20_000)), b.quot(S::count(20_000)));
    S::law_monotone(d, c, impact);
    S::law_monotone(wilder, wick_mult, one);
    let (u, v) = (impact.prod(wick_mult.diff(one)), impact.prod(wilder.diff(one)));
    S::law_monotone(wilder.diff(one), wick_mult.diff(one), impact);
    let (x, y) = (c.sum(impact), d.sum(impact));
    S::law_monotone(y, x, u);
    S::law_monotone(v, u, y);
    lemma_not_below_chain(y.sum(v), y.sum(u), x.sum(u));
    let sign = if ratio::<S>(5, 10).below(price.frac_part()) {
        one
    } else {
        one.negation()
    };
    S::law_monotone(y.sum(v), x.sum(u), impact.prod(ratio(2, 10)).prod(sign));
}

/// The slippage is not negative, and a fill is worse than the order by just that:
/// it is never better than the order.
pub proof fn law_fill_is_never_better<S: Total>(
    price: S,
    spread_bps: S,
    trade_val: S,
    base_slip: S,
    wick_mult: S,
)
    requires
        is_order(price, spread_bps, trade_val, base_slip, wick_mult),
        !price.below(ratio(1, 10_000)),
    ensures
        ({
            let off = deviation(price, spread_bps, trade_val, base_slip, wick_mult);
            &&& !off.below(S::count(0))
            &&& off.size() == off
            &&& executed_at(price, Side::Buy, off) == price.sum(off)
            &&& !executed_at(price, Side::Buy, off).below(price)
            &&& !price.diff(off).below(ratio(1, 10_000)) ==> executed_at(price, Side::Sell, off)
                == price.diff(off)
            &&& !price.below(executed_at(price, Side::Sell, off))
        }),
{
    let (zero, one, least) = (S::count(0), S::count(1), ratio::<S>(1, 10_000));
    let impact = base_impact(price, trade_val, base_slip);
    let off = deviation(price, spread_bps, trade_val, base_slip, wick_mult);
    lemma_impact_not_negative(price, trade_val, base_slip);
    let part = ratio::<S>(2, 10);
    let fifth = impact.prod(part);
    S::law_ratios(2, 10, 1, 1);
    S::law_ratio_of_one(1);
    S::law_positive_ratio(2, 10);
    S::law_strict(zero, part);
    lemma_not_below(one, part);
    S::law_monotone(one, part, impact);
    S::law_unit(impact);
    S::law_prod(impact, part);
    S::law_strict(zero, price);
    S::law_prod(price, spread_bps);
    S::law_counts(20_000, 20_000);
    let half = price.prod(spread_bps).quot(S::count(20_000));
    S::law_quot(price.prod(spread_bps), S::count(20_000));
    S::law_monotone(half, zero, impact);
    S::law_zero(impact);
    let wicks = impact.prod(wick_mult.diff(one));
    S::law_diff(wick_mult, one);
    S::law_prod(impact, wick_mult.diff(one));
    let d = half.sum(impact);
    let all = d.sum(wicks);
    S::law_sum(d, wicks);
    lemma_not_below_chain(all, d, impact);
    lemma_not_below_chain(all, impact, fifth);
    lemma_not_below_chain(all, fifth, zero);
    S::law_unit(fifth);
    S::law_opposite(all, fifth);
    S::law_sum(all, fifth);
    S::law_diff(all, fifth);
    assert(!off.below(zero));
    S::law_opposite(off, zero);
    S::law_total(price.sum(off));
    S::law_total(price.diff(off));
    S::law_sum(price, off);
    lemma_not_below_chain(price.sum(off), price, least);
    S::law_diff(price, off);
}

/// Without rounding, the slippage has a closed form: half the spread and the
/// impact times the wicks, give or take a fifth of the impact.
pub proof fn law_slippage_has_closed_form(
    price: real,
    spread_bps: real,
    trade_val: real,
    base_slip: real,
    wick_mult: real,
)
    requires
        is_order(price, spread_bps, trade_val, base_slip, wick_mult),
    ensures
        ({
            let off = deviation(price, spread_bps, trade_val, base_slip, wick_mult);
            let impact = base_impact(price, trade_val, base_slip);
            (off - (price * spread_bps / 20_000 as real + impact * wick_mult)).size() * 5 as real
                == impact
        }),
{
    let off = deviation(price, spread_bps, trade_val, base_slip, wick_mult);
    let impact = base_impact(price, trade_val, base_slip);
    lemma_impact_not_negative(price, trade_val, base_slip);
    let half = price * spread_bps / 20_000 as real;
    let sign = if ratio::<real>(5, 10).below(price.frac_part()) {
        1 as real
    } else {
        -(1 as real)
    };
    let fifth = impact * (2 as real / 10 as real);
    assert(fifth * 5 as real == impact) by (nonlinear_arith)
        requires
            fifth == impact * (2 as real / 10 as real),
    ;
    assert(impact + impact * (wick_mult - 1 as real) == impact * wick_mult) by (nonlinear_arith);
    assert(fifth * sign == fifth || fifth * sign == -fifth) by (nonlinear_arith)
        requires
            sign == 1 as real || sign == -(1 as real),
    ;
    assert(off == half + impact + impact * (wick_mult - 1 as real) + fifth * sign);
}

/// In fixed point the slippage has the closed form too, but for the rounding of the
/// fifth: it is off from half the spread and the impact times the wicks by a fifth of
/// the impact, rounded down, as long as it is within the range.
pub proof fn law_fixed_slippage_has_closed_form(
    price: Fixed,
    spread_bps: Fixed,
    trade_val: Fixed,
    base_slip: Fixed,
    wick_mult: Fixed,
)
    requires
        is_order(price, spread_bps, trade_val, base_slip, wick_mult),
        ({
            let half = price.prod(spread_bps).quot(Fixed::count(20_000)).units;
            let impact = base_impact(price, trade_val, base_slip).units;
            half + impact * wick_mult.units / SCALE as int + impact <= i64::MAX
        }),
    ensures
        ({
            let off = deviation(price, spread_bps, trade_val, base_slip, wick_mult).units;
            let half = price.prod(spread_bps).quot(Fixed::count(20_000)).units;
            let impact = base_impact(price, trade_val, base_slip);
            let fifth = impact.units as int / 5;
            ||| off == half + impact.prod(wick_mult).units + fifth
            ||| off == half + impact.prod(wick_mult).units - fifth
        }),
{
    let impact = base_impact(price, trade_val, base_slip);
    let (one, part) = (Fixed::count(1), ratio::<Fixed>(2, 10));
    let half = price.prod(spread_bps).quot(Fixed::count(20_000));
    lemma_impact_not_negative(price, trade_val, base_slip);
    Fixed::law_prod(price, spread_bps);
    Fixed::law_quot(price.prod(spread_bps), Fixed::count(20_000));
    let (h, u, w, s) = (
        half.units as int,
        impact.units as int,
        wick_mult.units as int,
        SCALE as int,
    );
    assert(part.units == 2_000_000) by {
        lemma_quot_by_count(Fixed::count(2), 10);
    }
    assert((u * 2_000_000) / s == u / 5) by (nonlinear_arith)
        requires
            s == 10_000_000,
            u >= 0,
    ;
    assert((u * (w - s)) / s == (u * w) / s - u && 0 <= u * (w - s)) by (nonlinear_arith)
        requires
            s == 10_000_000,
            u >= 0,
            w >= s,
    ;
    let fifth = impact.prod(part);
    Fixed::law_unit(fifth);
}

// The identifier of a grid
/// A level can be taken out of an identifier wherever it stands.
proof fn lemma_level_taken_out<S: Value>(levels: Seq<GridLevel<S>>, i: int)
    requires
        0 <= i < levels.len(),
    ensures
        grid_id_of(levels) == grid_id_of(levels.remove(i)) ^ id_share(levels[i]),
    decreases levels.len(),
{
    let rest = levels.remove(i);
    if i == levels.len() - 1 {
        assert(rest =~= levels.drop_last());
    } else {
        lemma_level_taken_out(levels.drop_last(), i);
        assert(rest.drop_last() =~= levels.drop_last().remove(i));
        assert(rest.last() == levels.last());
        let id = grid_id_of(rest.drop_last());
        let (x, y) = (id_share(levels[i]), id_share(levels.last()));
        assert((id ^ x) ^ y == (id ^ y) ^ x) by (bit_vector);
    }
}

/// The identifier of a grid depends on its levels, not on their order.
pub proof fn law_grid_id_ignores_order<S: Value>(a: Seq<GridLevel<S>>, b: Seq<GridLevel<S>>)
    requires
        a.to_multiset() == b.to_multiset(),
    ensures
        grid_id_of(a) == grid_id_of(b),
    decreases a.len(),
{
    broadcast use vstd::seq_lib::group_to_multiset_ensures;

    assert(a.len() == a.to_multiset().len() && b.len() == b.to_multiset().len());
    if a.len() > 0 {
        let x = a.last();
        assert(a.contains(x)) by {
            assert(a[a.len() - 1] == x);
        }
        assert(a.to_multiset().count(x) > 0);
        assert(b.contains(x));
        let i = choose|i: int| 0 <= i < b.len() && b[i] == x;
        assert(a.remove(a.len() - 1) =~= a.drop_last());
        assert(a.drop_last().to_multiset() =~= a.to_multiset().remove(x));
        assert(b.remove(i).to_multiset() =~= b.to_multiset().remove(x));
        law_grid_id_ignores_order(a.drop_last(), b.remove(i));
        lemma_level_taken_out(b, i);
    }
}

} // verus!
