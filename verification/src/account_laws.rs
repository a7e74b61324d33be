//! What simulated trading is for: which levels fill, what a fill moves, and what is
//! told of it afterwards.
use vstd::prelude::*;

use crate::exact::{lemma_prod_in_order, lemma_quot_undone, lemma_ratio_undone};
use crate::grid::lemma_part;
use crate::models::{GridLevel, MarketState, Side, TradeRecord};
use crate::number::{lemma_total_push, ratio, smaller, total, Value};
use crate::paper::{after_fill, base_impact, book_after, book_in_grid, count_side, deviation};
use crate::paper::{fill_of, fills_of, grid_id_of, id_share, key_of};
use crate::paper::{law_fill_is_never_better, law_slippage_has_closed_form, records_fill};
use crate::paper::{signed_values_of, slipped, values_of, worth};
use crate::paper::{Book, Fill, FillTerms, PaperTrader, KEY_MULTIPLIER};

verus! {

// Which levels fill
/// A buy level fills if and only if the price is down at it, it is not filled
/// already, the price is not far under the long average, and there is money for the
/// least value.
pub proof fn law_due_buy_fills<S: Value>(book: Book<S>, lv: GridLevel<S>, t: FillTerms<S>)
    requires
        lv.side is Buy,
    ensures
        fill_of(book, lv, t) is Some <==> {
            &&& t.price.at_most(lv.price)
            &&& !book.buys.contains(key_of(lv.price))
            &&& !t.price.below(t.state.ema50.prod(ratio(97, 100)))
            &&& !smaller(t.pos_size, book.capital).below(t.min_notional)
        },
{
}

/// A sell level fills if and only if the price is up at it, it is not filled already,
/// something is held, and what is sold reaches the least value.
pub proof fn law_due_sell_fills<S: Value>(book: Book<S>, lv: GridLevel<S>, t: FillTerms<S>)
    requires
        lv.side is Sell,
    ensures
        fill_of(book, lv, t) is Some <==> {
            &&& lv.price.at_most(t.price)
            &&& !book.sells.contains(key_of(lv.price))
            &&& !book.base_held.below(S::tiny())
            &&& !smaller(book.base_held, t.pos_size.quot(lv.price)).prod(lv.price).below(
                t.min_notional,
            )
        },
{
}

/// Without rounding: a buy at a level fills at every price from ninety-seven percent
/// of the long average up to the level, as long as the position size and the capital
/// reach the least value.
pub proof fn law_buy_fills_over_its_whole_range(
    book: Book<real>,
    lv: GridLevel<real>,
    t: FillTerms<real>,
)
    requires
        lv.side is Buy,
        !book.buys.contains(key_of(lv.price)),
    ensures
        fill_of(book, lv, t) is Some <==> {
            &&& 97 as real * t.state.ema50 <= 100 as real * t.price
            &&& t.price <= lv.price
            &&& t.min_notional <= t.pos_size
            &&& t.min_notional <= book.capital
        },
{
    lemma_part(t.state.ema50, 97, 100);
}

/// Whether a level fills does not depend on signal, trend, regime, relative strength,
/// range, spread or wicks: of the market, only the long average plays a part.
pub proof fn law_market_mood_stops_no_fill<S: Value>(
    book: Book<S>,
    lv: GridLevel<S>,
    t: FillTerms<S>,
    other: MarketState<S>,
)
    requires
        other.ema50 == t.state.ema50,
    ensures
        fill_of(book, lv, t) is Some <==> fill_of(
            book,
            lv,
            FillTerms { state: other, ..t },
        ) is Some,
{
}

// What a fill is
/// Without rounding, a buy costs the position size or all the capital, whichever is
/// less, and gets as much as that pays for at the executed price.
pub proof fn law_buy_gets_what_it_pays_for(
    book: Book<real>,
    lv: GridLevel<real>,
    t: FillTerms<real>,
)
    requires
        lv.side is Buy,
        fill_of(book, lv, t) is Some,
    ensures
        ({
            let f = fill_of(book, lv, t)->0;
            &&& f.side is Buy
            &&& f.price == lv.price
            &&& f.key == key_of(lv.price)
            &&& f.value <= t.pos_size && f.value <= book.capital
            &&& f.value == t.pos_size || f.value == book.capital
            &&& f.exec_price > 0 as real
            &&& f.qty * f.exec_price == f.value
        }),
{
    let f = fill_of(book, lv, t)->0;
    lemma_ratio_undone(1, 10_000);
    lemma_quot_undone(f.value, f.exec_price);
}

/// Without rounding, a sell sells what the position size is worth at the level or all
/// that is held, whichever is less, and brings in that much at the executed price.
pub proof fn law_sell_brings_what_it_sells(
    book: Book<real>,
    lv: GridLevel<real>,
    t: FillTerms<real>,
)
    requires
        lv.side is Sell,
        lv.price > 0 as real,
        fill_of(book, lv, t) is Some,
    ensures
        ({
            let f = fill_of(book, lv, t)->0;
            &&& f.side is Sell
            &&& f.price == lv.price
            &&& f.key == key_of(lv.price)
            &&& f.qty <= book.base_held && f.qty * lv.price <= t.pos_size
            &&& f.qty == book.base_held || f.qty * lv.price == t.pos_size
            &&& f.exec_price > 0 as real
            &&& f.value == f.qty * f.exec_price
        }),
{
    let f = fill_of(book, lv, t)->0;
    lemma_ratio_undone(1, 10_000);
    let most = t.pos_size / lv.price;
    lemma_quot_undone(t.pos_size, lv.price);
    lemma_prod_in_order(f.qty, most, lv.price);
}

/// Without rounding, a buy is executed above its level by the slippage and a sell
/// below it by the slippage, and the slippage is the one of the order's own value in
/// the market's spread and wicks.
pub proof fn law_fill_pays_its_slippage(
    book: Book<real>,
    lv: GridLevel<real>,
    t: FillTerms<real>,
)
    requires
        fill_of(book, lv, t) is Some,
        10_000 as real * lv.price >= 1 as real,
        t.state.spread_bps >= 0 as real,
        t.base_slip >= 0 as real,
        t.pos_size >= 0 as real,
        book.capital >= 0 as real,
        book.base_held >= 0 as real,
        t.state.wick_profile.slippage_factor() >= 1 as real,
    ensures
        ({
            let f = fill_of(book, lv, t)->0;
            let order = if lv.side is Buy {
                f.value
            } else {
                f.qty * lv.price
            };
            let impact = base_impact(lv.price, order, t.base_slip);
            let mid = lv.price * t.state.spread_bps / 20_000 as real + impact
                * t.state.wick_profile.slippage_factor();
            &&& f.slippage >= 0 as real
            &&& lv.side is Buy ==> f.exec_price == f.price + f.slippage
            &&& lv.side is Sell && 10_000 as real * (f.price - f.slippage) >= 1 as real
                ==> f.exec_price == f.price - f.slippage
            &&& lv.side is Sell ==> f.exec_price <= f.price
            &&& (f.slippage - mid).size() * 5 as real == impact
        }),
{
    let f = fill_of(book, lv, t)->0;
    lemma_ratio_undone(1, 10_000);
    let order = if lv.side is Buy {
        f.value
    } else {
        f.qty * lv.price
    };
    if lv.side is Sell {
        let most = t.pos_size / lv.price;
        lemma_quot_undone(t.pos_size, lv.price);
        assert(most >= 0 as real) by (nonlinear_arith)
            requires
                most * lv.price == t.pos_size,
                t.pos_size >= 0 as real,
                lv.price > 0 as real,
        ;
        lemma_prod_in_order(0 as real, f.qty, lv.price);
        assert(0 as real * lv.price == 0 as real) by (nonlinear_arith);
    }
    let wicks = t.state.wick_profile.slippage_factor();
    law_fill_is_never_better(lv.price, t.state.spread_bps, order, t.base_slip, wicks);
    law_slippage_has_closed_form(lv.price, t.state.spread_bps, order, t.base_slip, wicks);
}

/// Without rounding, the impact of an order is its price times the base slippage, in
/// full from a thousand on, a hundredth of it up to ten, and in proportion between.
pub proof fn law_impact_grows_with_the_order(price: real, trade_val: real, base_slip: real)
    ensures
        trade_val <= 10 as real ==> base_impact(price, trade_val, base_slip) * 100 as real == price
            * base_slip,
        10 as real <= trade_val && trade_val <= 1000 as real ==> base_impact(
            price,
            trade_val,
            base_slip,
        ) * 1000 as real == price * base_slip * trade_val,
        trade_val >= 1000 as real ==> base_impact(price, trade_val, base_slip) == price * base_slip,
{
    let q = trade_val / 1000 as real;
    lemma_quot_undone(trade_val, 1000 as real);
    lemma_ratio_undone(1, 100);
    let least = ratio::<real>(1, 100);
    let x = price * base_slip;
    assert((x * least) * 100 as real == x) by (nonlinear_arith)
        requires
            least * 100 as real == 1 as real,
    ;
    assert((x * q) * 1000 as real == x * trade_val) by (nonlinear_arith)
        requires
            q * 1000 as real == trade_val,
    ;
    assert(x * 1 as real == x) by (nonlinear_arith);
}

/// Without rounding, the slippage is a fifth of the impact more where the price is
/// past the half of its whole number, and as much less elsewhere.
pub proof fn law_noise_goes_by_the_price(
    price: real,
    spread_bps: real,
    trade_val: real,
    base_slip: real,
    wick_mult: real,
)
    requires
        price >= 0 as real,
    ensures
        ({
            let off = deviation(price, spread_bps, trade_val, base_slip, wick_mult);
            let impact = base_impact(price, trade_val, base_slip);
            let mid = price * spread_bps / 20_000 as real + impact * wick_mult;
            if 2 as real * (price - price.floor() as real) > 1 as real {
                5 as real * (off - mid) == impact
            } else {
                5 as real * (mid - off) == impact
            }
        }),
{
    let impact = base_impact(price, trade_val, base_slip);
    lemma_ratio_undone(5, 10);
    lemma_part(impact, 2, 10);
    let fifth = impact.prod(ratio(2, 10));
    assert(fifth * 1 as real == fifth && fifth * -(1 as real) == -fifth) by (nonlinear_arith);
    assert(impact + impact * (wick_mult - 1 as real) == impact * wick_mult) by (nonlinear_arith);
}

// What a fill moves
/// Without rounding, money and holdings are accounted for: a buy takes its value from
/// the capital and puts its quantity to the holdings, a sell the other way round; both
/// count once and add their slippage.
pub proof fn law_fill_moves_money_and_holdings(book: Book<real>, f: Fill<real>)
    ensures
        ({
            let after = after_fill(book, f);
            &&& f.side is Buy ==> after.capital + f.value == book.capital && after.base_held
                == book.base_held + f.qty
            &&& f.side is Sell ==> after.capital == book.capital + f.value && after.base_held
                + f.qty == book.base_held
            &&& after.total_slip - book.total_slip == f.slippage
            &&& after.counter == book.counter + 1
        }),
{
}

/// A fill marks its level as filled on its side, frees it on the other, and touches
/// no other level.
pub proof fn law_fill_marks_its_level<S: Value>(book: Book<S>, f: Fill<S>, key: u64)
    ensures
        ({
            let after = after_fill(book, f);
            &&& f.side is Buy ==> after.buys.contains(f.key) && !after.sells.contains(f.key)
            &&& f.side is Sell ==> after.sells.contains(f.key) && !after.buys.contains(f.key)
            &&& key != f.key ==> (after.buys.contains(key) <==> book.buys.contains(key))
            &&& key != f.key ==> (after.sells.contains(key) <==> book.sells.contains(key))
        }),
{
}

/// A price tries every level, in order: the levels of two lists one after the other,
/// and a single level on the book as it is.
pub proof fn law_levels_are_tried_in_order<S: Value>(
    book: Book<S>,
    a: Seq<GridLevel<S>>,
    b: Seq<GridLevel<S>>,
    lv: GridLevel<S>,
    t: FillTerms<S>,
)
    ensures
        book_after(book, a + b, t) == book_after(book_after(book, a, t), b, t),
        fills_of(book, a + b, t) == fills_of(book, a, t) + fills_of(book_after(book, a, t), b, t),
        match fill_of(book, lv, t) {
            Some(f) => book_after(book, seq![lv], t) == after_fill(book, f) && fills_of(
                book,
                seq![lv],
                t,
            ) == seq![f],
            None => book_after(book, seq![lv], t) == book && fills_of(book, seq![lv], t).len()
                == 0,
        },
    decreases b.len(),
{
    reveal_with_fuel(book_after, 2);
    reveal_with_fuel(fills_of, 2);
    assert(seq![lv].drop_last() =~= Seq::empty());
    if let Some(f) = fill_of(book, lv, t) {
        assert(Seq::<Fill<S>>::empty().push(f) =~= seq![f]);
    }
    let mid = book_after(book, a, t);
    if b.len() == 0 {
        assert(a + b =~= a);
        assert(fills_of(book, a, t) + fills_of(mid, b, t) =~= fills_of(book, a, t));
    } else {
        assert((a + b).drop_last() =~= a + b.drop_last());
        assert((a + b).last() == b.last());
        law_levels_are_tried_in_order(book, a, b.drop_last(), lv, t);
        let (x, y) = (fills_of(book, a, t), fills_of(mid, b.drop_last(), t));
        if let Some(f) = fill_of(book_after(mid, b.drop_last(), t), b.last(), t) {
            assert((x + y).push(f) =~= x + y.push(f));
        }
    }
}

/// Another grid frees all levels and touches neither money nor holdings; the grid in
/// use keeps its fills.
pub proof fn law_another_grid_frees_all_levels<S: Value>(
    book: Book<S>,
    grid_id: u64,
    levels: Seq<GridLevel<S>>,
    key: u64,
)
    ensures
        ({
            let after = book_in_grid(book, grid_id, levels);
            &&& after.capital == book.capital && after.base_held == book.base_held
            &&& after.total_slip == book.total_slip && after.counter == book.counter
            &&& grid_id_of(levels) != grid_id ==> !after.buys.contains(key)
                && !after.sells.contains(key)
            &&& grid_id_of(levels) == grid_id ==> after.buys == book.buys && after.sells
                == book.sells
        }),
{
}

// Keys
/// Without rounding, a key is the price in ten-thousandths, to the nearest.
pub proof fn law_key_is_near_the_price(price: real)
    requires
        price >= 0 as real,
        10_000 as real * price <= 1_000_000_000_000_000_000 as real,
    ensures
        -(1 as real) <= 2 as real * (key_of(price) as real - 10_000 as real * price),
        2 as real * (key_of(price) as real - 10_000 as real * price) <= 1 as real,
{
    let y = price * 10_000 as real;
    let half = 1 as real / 2 as real;
    assert(half * 2 as real == 1 as real) by {
        lemma_quot_undone(1 as real, 2 as real);
    }
    let n = (y + half).floor();
    assert(n as real <= y + half && y + half < (n + 1) as real);
    assert((n as real).floor() == n);
    assert(0 <= n <= 1_000_000_000_000_000_001);
    assert(key_of(price) == n);
}

/// Different keys are mixed into different shares of an identifier.
proof fn lemma_shares_differ(a: u64, b: u64)
    requires
        a.wrapping_mul(KEY_MULTIPLIER) == b.wrapping_mul(KEY_MULTIPLIER),
    ensures
        a == b,
{
    let (k, inverse, rest) = (2_654_435_761int, 14_962_265_741_255_716_689int, 2_153_028_908int);
    let m = 0x1_0000_0000_0000_0000int;
    assert(k * inverse == 1 + rest * m);
    let (x, y) = (a * k, b * k);
    vstd::arithmetic::div_mod::lemma_fundamental_div_mod(x, m);
    vstd::arithmetic::div_mod::lemma_fundamental_div_mod(y, m);
    assert(x % m == y % m);
    let q = x / m - y / m;
    let d = a - b;
    assert(d * k == m * q) by (nonlinear_arith)
        requires
            x == a * k,
            y == b * k,
            x == m * (x / m) + x % m,
            y == m * (y / m) + y % m,
            x % m == y % m,
            q == x / m - y / m,
            d == a - b,
    ;
    assert(d == m * (q * inverse - rest * d)) by (nonlinear_arith)
        requires
            d * k == m * q,
            k * inverse == 1 + rest * m,
    ;
    let z = q * inverse - rest * d;
    assert(d == 0) by (nonlinear_arith)
        requires
            d == m * z,
            m == 0x1_0000_0000_0000_0000int,
            -m < d,
            d < m,
    ;
}

/// The identifier tells grids apart: one that differs from another in a single level,
/// at a price with another key, has another identifier.
pub proof fn law_grid_id_tells_grids_apart<S: Value>(
    levels: Seq<GridLevel<S>>,
    a: GridLevel<S>,
    b: GridLevel<S>,
)
    requires
        key_of(a.price) != key_of(b.price),
    ensures
        grid_id_of(levels.push(a)) != grid_id_of(levels.push(b)),
{
    assert(levels.push(a).drop_last() =~= levels);
    assert(levels.push(b).drop_last() =~= levels);
    let (id, x, y) = (grid_id_of(levels), id_share(a), id_share(b));
    if id ^ x == id ^ y {
        assert(x == y) by (bit_vector)
            requires
                id ^ x == id ^ y,
        ;
        lemma_shares_differ(key_of(a.price), key_of(b.price));
    }
}

// What is told
/// A record tells its fill: the side, the level, the executed price, quantity, value
/// and slippage, the symbol, and the caption of the market's signal; it has no order
/// at the exchange.
pub proof fn law_record_tells_its_fill<S: Value>(
    r: TradeRecord<S>,
    f: Fill<S>,
    symbol: Seq<char>,
    state: MarketState<S>,
)
    requires
        records_fill(r, f, symbol, state),
    ensures
        r.side == f.side,
        r.price == f.price,
        r.exec_price == f.exec_price,
        r.qty == f.qty,
        r.value_usdt == f.value,
        r.slippage == f.slippage,
        r.symbol@ == symbol,
        r.trend_signal@ == state.trend_signal.caption(),
        r.slip_mult == state.wick_profile.slippage_factor(),
        r.binance_oid is None,
{
}

/// Every trade in a history is a buy or a sell, and a further one counts on its side.
pub proof fn law_sides_are_counted<S: Value>(trades: Seq<TradeRecord<S>>, r: TradeRecord<S>)
    ensures
        count_side(trades, Side::Buy) + count_side(trades, Side::Sell) == trades.len(),
        count_side(trades.push(r), r.side) == count_side(trades, r.side) + 1,
        r.side is Buy ==> count_side(trades.push(r), Side::Sell) == count_side(trades, Side::Sell),
        r.side is Sell ==> count_side(trades.push(r), Side::Buy) == count_side(trades, Side::Buy),
    decreases trades.len(),
{
    assert(trades.push(r).drop_last() =~= trades);
    if trades.len() > 0 {
        law_sides_are_counted(trades.drop_last(), trades.last());
    }
}

/// Without rounding, the volume grows by the value of every trade, and what the trades
/// moved grows by that of a buy and falls by that of a sell.
pub proof fn law_volume_adds_up(trades: Seq<TradeRecord<real>>, r: TradeRecord<real>)
    ensures
        total(values_of(trades.push(r))) == total(values_of(trades)) + r.value_usdt,
        r.side is Buy ==> total(signed_values_of(trades.push(r))) == total(
            signed_values_of(trades),
        ) + r.value_usdt,
        r.side is Sell ==> total(signed_values_of(trades.push(r))) == total(
            signed_values_of(trades),
        ) - r.value_usdt,
        trades.len() == 0 ==> total(values_of(trades)) == 0 as real && total(
            signed_values_of(trades),
        ) == 0 as real,
{
    let signed = match r.side {
        Side::Buy => r.value_usdt,
        Side::Sell => -r.value_usdt,
    };
    assert(values_of(trades.push(r)) =~= values_of(trades).push(r.value_usdt));
    assert(signed_values_of(trades.push(r)) =~= signed_values_of(trades).push(signed));
    lemma_total_push(values_of(trades), r.value_usdt);
    lemma_total_push(signed_values_of(trades), signed);
}

/// Without rounding, the value of an account is its capital at a price of nothing, and
/// rises with the price by what is held.
pub proof fn law_value_goes_with_holdings(
    trader: PaperTrader<real>,
    book: Book<real>,
    low: real,
    high: real,
)
    ensures
        worth(book, 0 as real) == book.capital,
        worth(book, high) - worth(book, low) == book.base_held * (high - low),
        trader.value_at(high) == worth(trader.book(), high),
{
    let b = book.base_held;
    assert(b * 0 as real == 0 as real && b * high - b * low == b * (high - low))
        by (nonlinear_arith);
}

/// Without rounding, the gain in percent is what the trades moved, over the value
/// without them, or over one where that is less.
pub proof fn law_gain_is_what_the_trades_moved(trader: PaperTrader<real>, price: real)
    ensures
        ({
            let moved = total(signed_values_of(trader.trades@));
            let before = trader.value_at(price) - moved;
            let base = if before < 1 as real {
                1 as real
            } else {
                before
            };
            trader.gain_at(price) * base == 100 as real * moved
        }),
{
    let moved = total(signed_values_of(trader.trades@));
    let before = trader.value_at(price) - moved;
    let base = if before < 1 as real {
        1 as real
    } else {
        before
    };
    lemma_quot_undone(moved, base);
    let q = moved / base;
    assert((q * 100 as real) * base == 100 as real * moved) by (nonlinear_arith)
        requires
            q * base == moved,
    ;
}

/// A trader begins with its capital alone: at every price it is worth that, nothing was
/// traded and no level is filled.
pub proof fn law_trader_begins_with_its_capital(
    trader: PaperTrader<real>,
    capital: real,
    max_history: usize,
    symbol: Seq<char>,
    price: real,
)
    requires
        trader.begins_with(capital, max_history, symbol),
    ensures
        trader.value_at(price) == capital,
        trader.capital == capital && trader.base_held == 0 as real,
        trader.total_slip == 0 as real && trader.counter == 0 && trader.trades@.len() == 0,
        trader.filled_buys@.len() == 0 && trader.filled_sells@.len() == 0,
        trader.max_history == max_history && trader.symbol@ == symbol && trader.grid_id == 0,
{
    assert(0 as real * price == 0 as real) by (nonlinear_arith);
}

/// Without rounding, a buy is executed above its price by what a sell on the same terms
/// is executed under it, and this is what both pay in slippage, unless the sell would be
/// executed under a ten-thousandth.
pub proof fn law_sides_slip_alike(
    price: real,
    spread_bps: real,
    trade_val: real,
    base_slip: real,
    wick_mult: real,
)
    requires
        deviation(price, spread_bps, trade_val, base_slip, wick_mult) >= 0 as real,
        10_000 as real * price >= 1 as real,
    ensures
        ({
            let buy = slipped(price, Side::Buy, spread_bps, trade_val, base_slip, wick_mult);
            let sell = slipped(price, Side::Sell, spread_bps, trade_val, base_slip, wick_mult);
            &&& buy.0 == price + buy.1
            &&& buy.1 == sell.1
            &&& buy.1 == deviation(price, spread_bps, trade_val, base_slip, wick_mult)
            &&& 10_000 as real * (price - sell.1) >= 1 as real ==> sell.0 == price - sell.1
            &&& 10_000 as real * (price - sell.1) < 1 as real ==> 10_000 as real * sell.0
                == 1 as real
        }),
{
    lemma_ratio_undone(1, 10_000);
}

/// The figures of a trader tell its buys and sells, which are all its trades.
pub proof fn law_figures_tell_the_trades<S: Value>(
    trader: PaperTrader<S>,
    r: (u64, usize, usize, S, S),
)
    requires
        trader.has_stats(r),
    ensures
        r.0 == trader.counter,
        r.1 + r.2 == trader.trades@.len(),
        r.1 == count_side(trader.trades@, Side::Buy),
        r.3 == total(values_of(trader.trades@)),
        r.4 == trader.total_slip,
{
    if trader.trades@.len() > 0 {
        law_sides_are_counted(trader.trades@, trader.trades@[0]);
    }
}

/// Trading a grid records one trade for every fill, in order, counts each, keeps the
/// newest in the history, and leaves the book as the fills leave it.
pub proof fn law_every_fill_is_recorded<S: Value>(
    before: PaperTrader<S>,
    after: PaperTrader<S>,
    levels: Seq<GridLevel<S>>,
    t: FillTerms<S>,
    records: Seq<TradeRecord<S>>,
    i: int,
)
    requires
        before.trades_grid(after, levels, t, records),
        before.max_history > 0,
    ensures
        records.len() == fills_of(before.book_for(levels), levels, t).len(),
        after.counter == before.counter + records.len(),
        0 <= i < records.len() ==> {
            let f = fills_of(before.book_for(levels), levels, t)[i];
            &&& records[i].side == f.side && records[i].price == f.price
            &&& records[i].qty == f.qty && records[i].value_usdt == f.value
            &&& records[i].symbol@ == before.symbol@
        },
        records.len() > 0 ==> after.trades@.last() == records.last(),
        before.trades@.len() + records.len() <= before.max_history ==> after.trades@
            == before.trades@ + records,
        before.trades@.len() + records.len() >= before.max_history ==> after.trades@.len()
            == before.max_history,
        after.book() == book_after(before.book_for(levels), levels, t),
        after.grid_id == grid_id_of(levels),
        after.symbol == before.symbol && after.max_history == before.max_history,
{
    let fills = fills_of(before.book_for(levels), levels, t);
    if 0 <= i < records.len() {
        assert(records_fill(records[i], fills[i], before.symbol@, t.state));
    }
}

/// A history of another size keeps its newest trades, all of them where it grows.
pub proof fn law_smaller_history_keeps_the_newest<S: Value>(
    before: PaperTrader<S>,
    after: PaperTrader<S>,
    max_history: usize,
    i: int,
)
    requires
        before.keeps_newest(after, max_history),
    ensures
        after.max_history == max_history && after.trades@.len() <= max_history,
        before.trades@.len() <= max_history ==> after.trades@ == before.trades@,
        before.trades@.len() > max_history ==> after.trades@.len() == max_history,
        0 <= i < after.trades@.len() ==> after.trades@[i] == before.trades@[before.trades@.len()
            - after.trades@.len() + i],
        after.book() == before.book(),
        after.grid_id == before.grid_id && after.symbol == before.symbol,
{
}

/// Another grid frees every level, the same one keeps them; money, holdings and history
/// stay.
pub proof fn law_turning_to_a_grid_moves_no_money<S: Value>(
    before: PaperTrader<S>,
    after: PaperTrader<S>,
    levels: Seq<GridLevel<S>>,
)
    requires
        before.turns_to(after, levels),
    ensures
        after.capital == before.capital && after.base_held == before.base_held,
        after.counter == before.counter && after.total_slip == before.total_slip,
        after.trades == before.trades && after.max_history == before.max_history,
        after.symbol == before.symbol,
        after.grid_id == before.grid_id ==> after.book() == before.book(),
        after.grid_id != before.grid_id ==> after.filled_buys@ == Set::<u64>::empty()
            && after.filled_sells@ == Set::<u64>::empty(),
        after.grid_id == grid_id_of(levels),
{
    assert(after.book().capital == before.book().capital);
    assert(after.book().base_held == before.book().base_held);
    assert(after.book().total_slip == before.book().total_slip);
    assert(after.book().counter == before.book().counter);
    assert(after.filled_buys@ == after.book().buys);
    assert(after.filled_sells@ == after.book().sells);
}

/// A level that does not fill leaves the trader as it is; one that fills moves money
/// against holdings, is counted, and is marked on its side alone.
pub proof fn law_tried_level_fills_or_leaves_all<S: Value>(
    before: PaperTrader<S>,
    after: PaperTrader<S>,
    lv: GridLevel<S>,
    t: FillTerms<S>,
    r: Option<Fill<S>>,
)
    requires
        before.tries_level(after, lv, t, r),
    ensures
        r is None ==> after.book() == before.book(),
        r matches Some(f) ==> {
            &&& f.side == lv.side && f.price == lv.price
            &&& after.counter == before.counter + 1
            &&& lv.side is Buy ==> after.capital == before.capital.diff(f.value)
                && after.base_held == before.base_held.sum(f.qty)
            &&& lv.side is Sell ==> after.capital == before.capital.sum(f.value)
                && after.base_held == before.base_held.diff(f.qty)
            &&& after.total_slip == before.total_slip.sum(f.slippage)
            &&& after.filled_buys@.contains(key_of(lv.price)) <==> lv.side is Buy
            &&& after.filled_sells@.contains(key_of(lv.price)) <==> lv.side is Sell
        },
        after.trades == before.trades && after.max_history == before.max_history,
        after.grid_id == before.grid_id && after.symbol == before.symbol,
{
    if let Some(f) = r {
        let b = after.book();
        assert(b == after_fill(before.book(), f));
        assert(b.counter == after.counter && b.capital == after.capital);
        assert(b.base_held == after.base_held && b.total_slip == after.total_slip);
        assert(b.buys == after.filled_buys@ && b.sells == after.filled_sells@);
    }
}

} // verus!
