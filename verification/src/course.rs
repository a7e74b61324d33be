//! What holds of a trader over any number of prices, one after the other.
use vstd::arithmetic::div_mod::lemma_fundamental_div_mod;
use vstd::prelude::*;
use vstd::seq_lib::seq_to_set_is_finite;
use vstd::set_lib::lemma_len_subset;

use crate::exact::{lemma_prod_in_order, lemma_quot_undone};
use crate::fixed::{Fixed, SCALE};
use crate::models::{GridLevel, Side, TradeRecord};
use crate::number::{law_smaller, lemma_counts, Ordered, Value};
use crate::paper::{after_fill, book_after, book_in_grid, fill_of, fills_of, grid_id_of};
use crate::paper::{is_due, is_solvent, key_of, law_account_stays_solvent, newest};
use crate::paper::{Book, Fill, FillTerms, PaperTrader};

verus! {

/// One price: the grid in use and the terms of its fills.
pub ghost struct Quote<S> {
    pub levels: Seq<GridLevel<S>>,
    pub terms: FillTerms<S>,
}

/// The grid in use after some prices.
pub open spec fn grid_after<S: Value>(grid_id: u64, quotes: Seq<Quote<S>>) -> u64 {
    if quotes.len() == 0 {
        grid_id
    } else {
        grid_id_of(quotes.last().levels)
    }
}

/// The book after some prices.
pub open spec fn book_over<S: Value>(book: Book<S>, grid_id: u64, quotes: Seq<Quote<S>>) -> Book<S>
    decreases quotes.len(),
{
    if quotes.len() == 0 {
        book
    } else {
        let front = quotes.drop_last();
        let q = quotes.last();
        book_after(
            book_in_grid(book_over(book, grid_id, front), grid_after(grid_id, front), q.levels),
            q.levels,
            q.terms,
        )
    }
}

/// The fills at the last of some prices.
pub open spec fn last_fills<S: Value>(book: Book<S>, grid_id: u64, quotes: Seq<Quote<S>>) -> Seq<
    Fill<S>,
> {
    let front = quotes.drop_last();
    let q = quotes.last();
    fills_of(
        book_in_grid(book_over(book, grid_id, front), grid_after(grid_id, front), q.levels),
        q.levels,
        q.terms,
    )
}

/// All fills at some prices, in order.
pub open spec fn fills_over<S: Value>(
    book: Book<S>,
    grid_id: u64,
    quotes: Seq<Quote<S>>,
) -> Seq<Fill<S>>
    decreases quotes.len(),
{
    if quotes.len() == 0 {
        Seq::empty()
    } else {
        fills_over(book, grid_id, quotes.drop_last()) + last_fills(book, grid_id, quotes)
    }
}

/// Whether a trader becomes another at a price, as `PaperTrader::simulate_fills`
/// has it.
pub open spec fn trades_at<S: Value>(
    before: PaperTrader<S>,
    after: PaperTrader<S>,
    q: Quote<S>,
) -> bool {
    &&& after.book() == book_after(before.book_for(q.levels), q.levels, q.terms)
    &&& after.grid_id == grid_id_of(q.levels)
}

/// The book of a trader that goes through prices one after the other is the book
/// over those prices, so what holds of that holds of every trader.
pub proof fn law_trader_follows_course<S: Value>(
    traders: Seq<PaperTrader<S>>,
    quotes: Seq<Quote<S>>,
)
    requires
        traders.len() == quotes.len() + 1,
        forall|i: int|
            0 <= i < quotes.len() ==> trades_at(
                #[trigger] traders[i],
                traders[i + 1],
                quotes[i],
            ),
    ensures
        traders.last().book() == book_over(traders[0].book(), traders[0].grid_id, quotes),
        traders.last().grid_id == grid_after(traders[0].grid_id, quotes),
    decreases quotes.len(),
{
    if quotes.len() > 0 {
        let n = quotes.len() as int;
        let (before, front) = (traders.drop_last(), quotes.drop_last());
        assert forall|i: int| 0 <= i < front.len() implies trades_at(
            #[trigger] before[i],
            before[i + 1],
            front[i],
        ) by {
            assert(trades_at(traders[i], traders[i + 1], quotes[i]));
        }
        law_trader_follows_course(before, front);
        assert(trades_at(traders[n - 1], traders[n - 1 + 1], quotes[n - 1]));
    }
}

// Debts
/// Whether a price can be traded: the position size is not negative, and every
/// level has a positive price.
pub open spec fn is_fair<S: Value>(q: Quote<S>) -> bool {
    &&& !q.terms.pos_size.below(S::count(0))
    &&& forall|i: int| 0 <= i < q.levels.len() ==> S::count(0).below((#[trigger] q.levels[i]).price)
}

/// A fresh account has no debts: capital that is not negative, and no holdings.
pub proof fn law_fresh_account_is_solvent<S: Ordered>(book: Book<S>)
    requires
        !book.capital.below(S::count(0)),
        book.base_held == S::count(0),
    ensures
        is_solvent(book),
{
    lemma_counts::<S>(0, 0);
    S::law_strict(S::count(0), S::count(0));
}

/// However many prices there were, on whatever grids: an account that starts
/// without debts has none. It never spends money and never sells what it does not
/// hold.
pub proof fn law_account_stays_solvent_over_time<S: Ordered>(
    book: Book<S>,
    grid_id: u64,
    quotes: Seq<Quote<S>>,
)
    requires
        is_solvent(book),
        forall|i: int| 0 <= i < quotes.len() ==> is_fair(#[trigger] quotes[i]),
    ensures
        is_solvent(book_over(book, grid_id, quotes)),
    decreases quotes.len(),
{
    if quotes.len() > 0 {
        let front = quotes.drop_last();
        assert forall|i: int| 0 <= i < front.len() implies is_fair(#[trigger] front[i]) by {
            assert(is_fair(quotes[i]));
        }
        law_account_stays_solvent_over_time(book, grid_id, front);
        let q = quotes.last();
        assert(is_fair(quotes[quotes.len() - 1]));
        law_account_stays_solvent(
            book_in_grid(book_over(book, grid_id, front), grid_after(grid_id, front), q.levels),
            q.levels,
            q.terms,
        );
    }
}

// The size of a trade
/// Whether a fill stays within the position size: a buy costs no more, and a sell
/// sells no more than the size buys at the level.
pub open spec fn within_position<S: Value>(f: Fill<S>, t: FillTerms<S>) -> bool {
    match f.side {
        Side::Buy => !t.pos_size.below(f.value),
        Side::Sell => !t.pos_size.quot(f.price).below(f.qty),
    }
}

/// No fill exceeds the position size.
pub proof fn law_fills_stay_within_position<S: Ordered>(
    book: Book<S>,
    levels: Seq<GridLevel<S>>,
    t: FillTerms<S>,
)
    ensures
        forall|i: int|
            0 <= i < fills_of(book, levels, t).len() ==> within_position(
                #[trigger] fills_of(book, levels, t)[i],
                t,
            ),
    decreases levels.len(),
{
    if levels.len() > 0 {
        let front = levels.drop_last();
        law_fills_stay_within_position(book, front, t);
        let before = book_after(book, front, t);
        let lv = levels.last();
        law_smaller(t.pos_size, before.capital);
        law_smaller(before.base_held, t.pos_size.quot(lv.price));
        assert forall|i: int| 0 <= i < fills_of(book, levels, t).len() implies within_position(
            #[trigger] fills_of(book, levels, t)[i],
            t,
        ) by {
            if i < fills_of(book, front, t).len() {
                assert(fills_of(book, levels, t)[i] == fills_of(book, front, t)[i]);
            }
        }
    }
}

/// Without rounding, a sell within the position size is worth no more than that
/// at its level.
pub proof fn law_sell_is_worth_its_position(f: Fill<real>, t: FillTerms<real>)
    requires
        f.side is Sell,
        f.price > 0 as real,
        within_position(f, t),
    ensures
        f.qty * f.price <= t.pos_size,
{
    lemma_quot_undone(t.pos_size, f.price);
    lemma_prod_in_order(f.qty, t.pos_size / f.price, f.price);
}

/// In fixed point too, a sell within the position size is worth no more than that
/// at its level.
pub proof fn law_fixed_sell_is_worth_its_position(f: Fill<Fixed>, t: FillTerms<Fixed>)
    requires
        f.side is Sell,
        f.price.units > 0,
        t.pos_size.units >= 0,
        within_position(f, t),
    ensures
        !t.pos_size.below(f.qty.prod(f.price)),
{
    let (q, p, w, s) = (
        f.qty.units as int,
        f.price.units as int,
        t.pos_size.units as int,
        SCALE as int,
    );
    lemma_fundamental_div_mod(w * s, p);
    let x = (w * s) / p;
    assert(0 <= x) by (nonlinear_arith)
        requires
            x == (w * s) / p,
            w * s >= 0,
            p > 0,
    ;
    assert(q * p <= w * s) by (nonlinear_arith)
        requires
            q <= x,
            w * s == p * x + (w * s) % p,
            0 <= (w * s) % p,
            p > 0,
    ;
    assert((q * p) / s <= w) by (nonlinear_arith)
        requires
            q * p <= w * s,
            s > 0,
    ;
}

// Once per level
/// Whether no two levels have the same key.
pub open spec fn keys_differ<S: Value>(levels: Seq<GridLevel<S>>) -> bool {
    forall|i: int, j: int|
        0 <= i < j < levels.len() ==> key_of((#[trigger] levels[i]).price) != key_of(
            (#[trigger] levels[j]).price,
        )
}

/// Whether a fill is one of a level.
pub open spec fn fills_level<S: Value>(f: Fill<S>, lv: GridLevel<S>) -> bool {
    f.side == lv.side && f.key == key_of(lv.price) && f.price == lv.price
}

/// Whether a book has noted a fill.
pub open spec fn notes_fill<S: Value>(book: Book<S>, f: Fill<S>) -> bool {
    match f.side {
        Side::Buy => book.buys.contains(f.key),
        Side::Sell => book.sells.contains(f.key),
    }
}

/// Whether a fill is one of some levels.
pub open spec fn is_of<S: Value>(f: Fill<S>, levels: Seq<GridLevel<S>>) -> bool {
    exists|i: int| 0 <= i < levels.len() && fills_level(f, #[trigger] levels[i])
}

/// Whether no two fills have the same key.
pub open spec fn fills_differ<S: Value>(fills: Seq<Fill<S>>) -> bool {
    forall|i: int, j: int|
        0 <= i < j < fills.len() ==> (#[trigger] fills[i]).key != (#[trigger] fills[j]).key
}

/// Whether fills are of levels, at most one of each, and noted in a book.
pub open spec fn accounts_for<S: Value>(
    book: Book<S>,
    fills: Seq<Fill<S>>,
    levels: Seq<GridLevel<S>>,
) -> bool {
    &&& fills_differ(fills)
    &&& forall|i: int|
        0 <= i < fills.len() ==> is_of(#[trigger] fills[i], levels) && notes_fill(book, fills[i])
}

/// The levels of a price fill at most once each, and none that was filled before.
proof fn lemma_levels_fill_once<S: Value>(
    book: Book<S>,
    done: Seq<Fill<S>>,
    levels: Seq<GridLevel<S>>,
    k: int,
    t: FillTerms<S>,
)
    requires
        keys_differ(levels),
        accounts_for(book, done, levels),
        0 <= k <= levels.len(),
    ensures
        accounts_for(
            book_after(book, levels.take(k), t),
            done + fills_of(book, levels.take(k), t),
            levels,
        ),
    decreases k,
{
    let part = levels.take(k);
    if k == 0 {
        assert(done + fills_of(book, part, t) =~= done);
    } else {
        let front = levels.take(k - 1);
        assert(part.drop_last() =~= front);
        lemma_levels_fill_once(book, done, levels, k - 1, t);
        let before = book_after(book, front, t);
        let old_fills = done + fills_of(book, front, t);
        let lv = levels[k - 1];
        assert(part.last() == lv);
        match fill_of(before, lv, t) {
            None => {
                assert(done + fills_of(book, part, t) =~= old_fills);
            },
            Some(f) => {
                let all = done + fills_of(book, part, t);
                assert(all =~= old_fills.push(f));
                let after = after_fill(before, f);
                assert(is_due(before, lv, t.price));
                assert(fills_level(f, levels[k - 1]));
                assert forall|i: int| 0 <= i < old_fills.len() implies (#[trigger] old_fills[i]).key
                    != f.key && notes_fill(after, old_fills[i]) by {
                    let g = old_fills[i];
                    assert(is_of(g, levels) && notes_fill(before, g));
                    let j = choose|j: int| 0 <= j < levels.len() && fills_level(g, levels[j]);
                    if g.key == f.key {
                        assert(j == k - 1) by {
                            if j < k - 1 {
                                assert(key_of(levels[j].price) != key_of(levels[k - 1].price));
                            }
                            if j > k - 1 {
                                assert(key_of(levels[k - 1].price) != key_of(levels[j].price));
                            }
                        }
                    }
                }
                assert forall|i: int| 0 <= i < all.len() implies is_of(#[trigger] all[i], levels)
                    && notes_fill(after, all[i]) by {
                    if i < old_fills.len() {
                        assert(all[i] == old_fills[i]);
                    } else {
                        assert(all[i] == f);
                    }
                }
                assert forall|i: int, j: int| 0 <= i < j < all.len() implies (
                #[trigger] all[i]).key != (#[trigger] all[j]).key by {
                    assert(all[i] == old_fills[i]);
                    if j < old_fills.len() {
                        assert(all[j] == old_fills[j]);
                    }
                }
            },
        }
    }
}

proof fn lemma_grid_accounts_for<S: Value>(
    book: Book<S>,
    grid_id: u64,
    levels: Seq<GridLevel<S>>,
    quotes: Seq<Quote<S>>,
)
    requires
        keys_differ(levels),
        forall|i: int| 0 <= i < quotes.len() ==> (#[trigger] quotes[i]).levels == levels,
    ensures
        accounts_for(
            book_over(book, grid_id, quotes),
            fills_over(book, grid_id, quotes),
            levels,
        ),
    decreases quotes.len(),
{
    if quotes.len() > 0 {
        let front = quotes.drop_last();
        assert forall|i: int| 0 <= i < front.len() implies (#[trigger] front[i]).levels
            == levels by {
            assert(quotes[i].levels == levels);
        }
        lemma_grid_accounts_for(book, grid_id, levels, front);
        let q = quotes.last();
        assert(quotes[quotes.len() - 1].levels == levels);
        let start = book_in_grid(
            book_over(book, grid_id, front),
            grid_after(grid_id, front),
            levels,
        );
        let done = fills_over(book, grid_id, front);
        if front.len() > 0 {
            assert(front[front.len() - 1].levels == levels);
        }
        assert(levels.take(levels.len() as int) =~= levels);
        lemma_levels_fill_once(start, done, levels, levels.len() as int, q.terms);
    }
}

/// A level fills at most once while its grid is in use, whatever the prices: no
/// two fills are on one level, and there are no more fills than levels.
pub proof fn law_levels_fill_at_most_once<S: Value>(
    book: Book<S>,
    grid_id: u64,
    levels: Seq<GridLevel<S>>,
    quotes: Seq<Quote<S>>,
)
    requires
        keys_differ(levels),
        forall|i: int| 0 <= i < quotes.len() ==> (#[trigger] quotes[i]).levels == levels,
    ensures
        fills_differ(fills_over(book, grid_id, quotes)),
        forall|i: int|
            0 <= i < fills_over(book, grid_id, quotes).len() ==> is_of(
                #[trigger] fills_over(book, grid_id, quotes)[i],
                levels,
            ),
        fills_over(book, grid_id, quotes).len() <= levels.len(),
{
    lemma_grid_accounts_for(book, grid_id, levels, quotes);
    let fills = fills_over(book, grid_id, quotes);
    let keys = Seq::new(fills.len(), |i: int| fills[i].key);
    let all = Seq::new(levels.len(), |i: int| key_of(levels[i].price));
    assert(keys.no_duplicates()) by {
        assert forall|i: int, j: int|
            0 <= i < keys.len() && 0 <= j < keys.len() && i != j implies keys[i] != keys[j] by {
            if i < j {
                assert(fills[i].key != fills[j].key);
            } else {
                assert(fills[j].key != fills[i].key);
            }
        }
    }
    keys.unique_seq_to_set();
    all.lemma_cardinality_of_set();
    seq_to_set_is_finite(all);
    assert(keys.to_set().subset_of(all.to_set())) by {
        assert forall|k: u64| keys.to_set().contains(k) implies all.to_set().contains(k) by {
            let i = choose|i: int| 0 <= i < keys.len() && keys[i] == k;
            assert(is_of(fills[i], levels));
            let j = choose|j: int| 0 <= j < levels.len() && fills_level(fills[i], levels[j]);
            assert(all[j] == k);
        }
    }
    lemma_len_subset(keys.to_set(), all.to_set());
}

// The history
/// A history after trades were put to it one after the other, each pushing out
/// what has no room.
pub open spec fn pushed<T>(history: Seq<T>, trades: Seq<T>, max: nat) -> Seq<T>
    decreases trades.len(),
{
    if trades.len() == 0 {
        history
    } else {
        newest(pushed(history, trades.drop_last(), max).push(trades.last()), max)
    }
}

/// After any number of trades the history holds the newest, in order, the last
/// one at the end: only the oldest leave.
pub proof fn law_history_holds_the_newest<T>(history: Seq<T>, trades: Seq<T>, max: nat)
    requires
        max > 0,
        history.len() <= max,
    ensures
        pushed(history, trades, max) == newest(history + trades, max),
        pushed(history, trades, max).len() <= max,
        trades.len() > 0 ==> pushed(history, trades, max).last() == trades.last(),
        trades.len() >= max ==> pushed(history, trades, max) == trades.skip(trades.len() - max),
    decreases trades.len(),
{
    if trades.len() == 0 {
        assert(history + trades =~= history);
    } else {
        let front = trades.drop_last();
        law_history_holds_the_newest(history, front, max);
        let before = newest(history + front, max);
        assert((history + front).push(trades.last()) =~= history + trades);
        assert(newest(before.push(trades.last()), max) =~= newest(history + trades, max));
    }
    if trades.len() >= max {
        assert(newest(history + trades, max) =~= trades.skip(trades.len() - max));
    }
}

/// Trades that come to a trader's history one after the other leave there the
/// newest, in order, and touch nothing else.
pub proof fn law_noted_trades_touch_the_history_alone<S: Value>(
    traders: Seq<PaperTrader<S>>,
    records: Seq<TradeRecord<S>>,
)
    requires
        traders.len() == records.len() + 1,
        forall|i: int|
            0 <= i < records.len() ==> (#[trigger] traders[i]).notes_trade(
                traders[i + 1],
                records[i],
            ),
        traders[0].max_history > 0,
        traders[0].wf(),
    ensures
        ({
            let (first, last) = (traders[0], traders.last());
            &&& last.trades@ == newest(first.trades@ + records, first.max_history as nat)
            &&& last.book() == first.book()
            &&& last.max_history == first.max_history
            &&& last.grid_id == first.grid_id
            &&& last.symbol == first.symbol
            &&& last.wf()
            &&& records.len() > 0 ==> last.trades@.last() == records.last()
        }),
    decreases records.len(),
{
    let max = traders[0].max_history as nat;
    if records.len() > 0 {
        let n = records.len() as int;
        let (before, front) = (traders.drop_last(), records.drop_last());
        assert forall|i: int| 0 <= i < front.len() implies (#[trigger] before[i]).notes_trade(
            before[i + 1],
            front[i],
        ) by {
            assert(traders[i].notes_trade(traders[i + 1], records[i]));
        }
        law_noted_trades_touch_the_history_alone(before, front);
        assert(traders[n - 1].notes_trade(traders[n - 1 + 1], records[n - 1]));
        let all = traders[0].trades@ + front;
        assert(newest(newest(all, max).push(records.last()), max) =~= newest(
            traders[0].trades@ + records,
            max,
        ));
    } else {
        assert(traders[0].trades@ + records =~= traders[0].trades@);
    }
}

} // verus!
