//! What the market analysis is for: how its figures answer to the candles, and to
//! each other.
use vstd::prelude::*;

use crate::analyzer::{atr_of, candle_of, candles_of, closes, ema_of, gains, losses};
use crate::analyzer::{latency_deviation, latency_mean, latency_sum, market_of, regime_of, rsi_of};
use crate::analyzer::{spread_of, square_distances, strength};
use crate::analyzer::{tells_latencies, true_range, true_ranges, wilder};
use crate::exact::{is_real_root, lemma_quot_undone, lemma_ratio_undone};
use crate::grid::lemma_part;
use crate::models::{bucket_of, long_wicks, wick_shares, Candle, RawKline, Regime};
use crate::models::{Side, TradingStatus, TrendSignal, WickProfile};
use crate::number::{larger, lemma_not_below, lemma_total_push, ratio, smaller, total};
use crate::number::{Total, Value};

verus! {

// Words
/// The exchange's words for the sides are the three letters of a buy and the four
/// of a sell, so a side can be read from its word.
pub proof fn law_sides_have_their_words(a: Side, b: Side)
    ensures
        a.word() == if a is Buy {
            seq!['B', 'U', 'Y']
        } else {
            seq!['S', 'E', 'L', 'L']
        },
        a.word() == b.word() ==> a == b,
{
    reveal_strlit("BUY");
    reveal_strlit("SELL");
    assert("BUY"@ =~= seq!['B', 'U', 'Y']);
    assert("SELL"@ =~= seq!['S', 'E', 'L', 'L']);
    assert("BUY"@.len() != "SELL"@.len());
}

/// The captions of the signals end in their names, and no two are the same.
pub proof fn law_signals_have_their_captions(a: TrendSignal, b: TrendSignal)
    ensures
        a is Bullish ==> a.caption().skip(2) == seq!['B', 'U', 'L', 'L', 'I', 'S', 'H'],
        a is Caution ==> a.caption().skip(2) == seq!['C', 'A', 'U', 'T', 'I', 'O', 'N'],
        a is Bearish ==> a.caption().skip(2) == seq!['B', 'E', 'A', 'R', 'I', 'S', 'H'],
        a.caption() == b.caption() ==> a == b,
{
    reveal_strlit("🟢 BULLISH");
    reveal_strlit("🟡 CAUTION");
    reveal_strlit("🔴 BEARISH");
    let (x, y, z) = (
        seq!['B', 'U', 'L', 'L', 'I', 'S', 'H'],
        seq!['C', 'A', 'U', 'T', 'I', 'O', 'N'],
        seq!['B', 'E', 'A', 'R', 'I', 'S', 'H'],
    );
    assert("🟢 BULLISH"@.skip(2) =~= x);
    assert("🟡 CAUTION"@.skip(2) =~= y);
    assert("🔴 BEARISH"@.skip(2) =~= z);
    assert(x[0] != y[0] && x[1] != z[1] && y[0] != z[0]);
}

/// A rising market makes positions larger and the grid denser, a falling one the
/// other way round: by a fifth more and three tenths less, and by a tenth less and
/// over a third more.
pub proof fn law_signals_scale_trades_and_spacing(signal: TrendSignal)
    ensures
        signal is Bullish ==> 10 as real * signal.position_factor::<real>() == 12 as real && 10
            as real * signal.spacing_factor::<real>() == 9 as real,
        signal is Caution ==> 20 as real * signal.position_factor::<real>() == 17 as real
            && signal.spacing_factor::<real>() == 1 as real,
        signal is Bearish ==> 10 as real * signal.position_factor::<real>() == 7 as real && 20
            as real * signal.spacing_factor::<real>() == 27 as real,
{
    lemma_ratio_undone(120, 100);
    lemma_ratio_undone(85, 100);
    lemma_ratio_undone(70, 100);
    lemma_ratio_undone(90, 100);
    lemma_ratio_undone(1, 1);
    lemma_ratio_undone(135, 100);
}

// Candles
/// Without rounding, body and wicks are the parts of the range that they are: above
/// the higher of open and close, between the two, and below the lower.
pub proof fn law_shares_are_parts_of_the_range(c: Candle<real>)
    requires
        c.low <= c.open <= c.high,
        c.low <= c.close <= c.high,
        real::tiny() <= c.high - c.low,
    ensures
        c.open <= c.close ==> {
            &&& c.body_share() * (c.high - c.low) == c.close - c.open
            &&& c.upper_wick_share() * (c.high - c.low) == c.high - c.close
            &&& c.lower_wick_share() * (c.high - c.low) == c.open - c.low
        },
        c.close <= c.open ==> {
            &&& c.body_share() * (c.high - c.low) == c.open - c.close
            &&& c.upper_wick_share() * (c.high - c.low) == c.high - c.open
            &&& c.lower_wick_share() * (c.high - c.low) == c.close - c.low
        },
        c.wick_share() == 1 as real - c.body_share(),
        c.has_long_wick() <==> 10 as real * c.wick_share() > 6 as real,
{
    lemma_ratio_undone(60, 100);
    let range = c.high - c.low;
    let body = (c.close - c.open).size();
    assert(range > 0 as real);
    lemma_quot_undone(body, range);
    let q = body / range;
    assert(0 as real <= q <= 1 as real) by (nonlinear_arith)
        requires
            q * range == body,
            0 as real <= body <= range,
            range > 0 as real,
    ;
    lemma_quot_undone(c.high - larger(c.close, c.open), range);
    lemma_quot_undone(smaller(c.close, c.open) - c.low, range);
}

/// The number of long wicks adds up over candles that follow each other, and one
/// candle counts where its wicks take more than six tenths of its range.
pub proof fn law_long_wicks_add_up(a: Seq<Candle<real>>, b: Seq<Candle<real>>, c: Candle<real>)
    ensures
        long_wicks(a + b) == long_wicks(a) + long_wicks(b),
        long_wicks(seq![c]) == if 10 as real * c.wick_share() > 6 as real {
            1nat
        } else {
            0nat
        },
    decreases b.len(),
{
    reveal_with_fuel(long_wicks, 2);
    lemma_ratio_undone(60, 100);
    assert(seq![c].drop_last() =~= Seq::empty());
    if b.len() == 0 {
        assert(a + b =~= a);
    } else {
        assert((a + b).drop_last() =~= a + b.drop_last());
        law_long_wicks_add_up(a, b.drop_last(), c);
    }
}

/// The profile of candles is the mean of their wick shares and the number of long
/// wicks: one more candle moves both by its own.
pub proof fn law_profile_is_a_mean(candles: Seq<Candle<real>>, c: Candle<real>)
    requires
        candles.len() < u64::MAX,
        candles.len() < usize::MAX,
    ensures
        ({
            let (a, b) = (WickProfile::of(candles), WickProfile::of(candles.push(c)));
            let n = candles.len();
            &&& b.avg_wick_ratio * ((n + 1) as real) == a.avg_wick_ratio * (n as real)
                + c.wick_share()
            &&& b.long_wick_count == a.long_wick_count + if 10 as real * c.wick_share()
                > 6 as real {
                1int
            } else {
                0int
            }
        }),
        candles.len() == 0 ==> WickProfile::of(candles).avg_wick_ratio == 0 as real
            && WickProfile::of(candles).long_wick_count == 0,
{
    let n = candles.len();
    let all = candles.push(c);
    assert(wick_shares(all) =~= wick_shares(candles).push(c.wick_share()));
    lemma_total_push(wick_shares(candles), c.wick_share());
    assert(all =~= candles + seq![c]);
    law_long_wicks_add_up(candles, seq![c], c);
    lemma_long_wicks_bounded(candles);
    lemma_long_wicks_bounded(all);
    lemma_quot_undone(total(wick_shares(all)), (n + 1) as real);
    if n > 0 {
        lemma_quot_undone(total(wick_shares(candles)), n as real);
    } else {
        assert(0 as real * (n as real) == 0 as real) by (nonlinear_arith);
        assert(wick_shares(candles) =~= Seq::empty());
    }
}

/// No more wicks are long than there are candles.
proof fn lemma_long_wicks_bounded(candles: Seq<Candle<real>>)
    ensures
        long_wicks(candles) <= candles.len(),
    decreases candles.len(),
{
    if candles.len() > 0 {
        lemma_long_wicks_bounded(candles.drop_last());
    }
}

/// Between its ends the slippage multiplier is one, three times the mean wick share,
/// and seventy-five thousandths for every long wick.
pub proof fn law_slippage_factor_adds_up(p: WickProfile<real>)
    requires
        0 as real <= 3 as real * p.avg_wick_ratio <= 2 as real,
        40 as real * (3 as real * p.avg_wick_ratio) + 3 as real * (p.long_wick_count as real)
            <= 160 as real,
    ensures
        40 as real * (p.slippage_factor() - 1 as real - 3 as real * p.avg_wick_ratio) == 3 as real
            * (p.long_wick_count as real),
{
    let n = p.long_wick_count as real;
    assert(p.long_wick_count as u64 as real == n);
    let share = n / 20 as real;
    lemma_quot_undone(n, 20 as real);
    lemma_part(share, 15, 10);
    let w = p.avg_wick_ratio;
    assert(w * 3 as real == 3 as real * w);
}

// Averages
/// The true range is the largest of the candle's own range and its distances from
/// the close before it, but never over the cap.
pub proof fn law_true_range_is_the_largest(prev: real, c: Candle<real>, cap_pct: real)
    ensures
        ({
            let tr = true_range(prev, c, cap_pct);
            &&& 100 as real * tr <= prev * cap_pct
            &&& 100 as real * tr == prev * cap_pct || {
                &&& c.high - c.low <= tr && c.high - prev <= tr && prev - c.high <= tr
                &&& c.low - prev <= tr && prev - c.low <= tr
                &&& {
                    ||| tr == c.high - c.low
                    ||| tr == c.high - prev
                    ||| tr == prev - c.high
                    ||| tr == c.low - prev
                    ||| tr == prev - c.low
                }
            }
            &&& c.high - c.low >= tr || c.high - prev >= tr || prev - c.high >= tr || c.low - prev
                >= tr || prev - c.low >= tr
        }),
{
    lemma_quot_undone(prev * cap_pct, 100 as real);
}

/// Wilder's average of `n` numbers is their mean, and every further number moves it
/// by an `n`-th of the difference.
pub proof fn law_wilder_moves_by_a_part(xs: Seq<real>, x: real, n: int)
    requires
        1 <= n <= u64::MAX,
        n <= xs.len(),
    ensures
        wilder(xs.take(n), n) * (n as real) == total(xs.take(n)),
        (wilder(xs.push(x), n) - wilder(xs, n)) * (n as real) == x - wilder(xs, n),
{
    let m = n as real;
    let first = xs.take(n);
    assert(first.take(n) =~= first);
    assert(first.skip(n) =~= Seq::empty());
    lemma_quot_undone(total(first), m);
    let all = xs.push(x);
    assert(all.take(n) =~= first);
    assert(all.skip(n) =~= xs.skip(n).push(x));
    assert(all.skip(n).drop_last() =~= xs.skip(n));
    let s = wilder(xs, n);
    let top = s * (m - 1 as real) + x;
    lemma_quot_undone(top, m);
    assert((top / m - s) * m == x - s) by (nonlinear_arith)
        requires
            (top / m) * m == top,
            top == s * (m - 1 as real) + x,
    ;
}

/// The average true range is Wilder's average over the true ranges: with one candle
/// more than the period it is their mean, every further candle moves it by its share,
/// and with fewer candles it is zero.
pub proof fn law_atr_averages_true_ranges(
    candles: Seq<Candle<real>>,
    c: Candle<real>,
    period: int,
    cap_pct: real,
)
    requires
        1 <= period <= u64::MAX,
    ensures
        candles.len() <= period ==> atr_of(candles, period, cap_pct) == 0 as real,
        candles.len() == period + 1 ==> atr_of(candles, period, cap_pct) * (period as real)
            == total(true_ranges(candles, cap_pct)),
        candles.len() > period ==> (atr_of(candles.push(c), period, cap_pct) - atr_of(
            candles,
            period,
            cap_pct,
        )) * (period as real) == true_range(candles.last().close, c, cap_pct) - atr_of(
            candles,
            period,
            cap_pct,
        ),
{
    if candles.len() > period {
        let trs = true_ranges(candles, cap_pct);
        let tr = true_range(candles.last().close, c, cap_pct);
        assert(true_ranges(candles.push(c), cap_pct) =~= trs.push(tr));
        law_wilder_moves_by_a_part(trs, tr, period);
        if candles.len() == period + 1 {
            assert(trs.take(period) =~= trs);
        }
    }
}

/// A gain and a loss tell the move between two closes: neither is negative, one of
/// them is zero, and the move is the gain less the loss.
pub proof fn law_gains_and_losses_tell_the_move(candles: Seq<Candle<real>>, i: int)
    requires
        0 <= i < candles.len() - 1,
    ensures
        gains(candles).len() == candles.len() - 1,
        losses(candles).len() == candles.len() - 1,
        gains(candles)[i] >= 0 as real,
        losses(candles)[i] >= 0 as real,
        gains(candles)[i] == 0 as real || losses(candles)[i] == 0 as real,
        gains(candles)[i] - losses(candles)[i] == candles[i + 1].close - candles[i].close,
{
}

/// The relative strength is the share of the gains in all moves, in percent.
pub proof fn law_rsi_is_the_share_of_gains(candles: Seq<Candle<real>>, period: int)
    requires
        1 <= period < candles.len(),
        wilder(gains(candles), period) >= 0 as real,
        wilder(losses(candles), period) >= real::tiny(),
    ensures
        ({
            let (g, l) = (wilder(gains(candles), period), wilder(losses(candles), period));
            rsi_of(candles, period) * (g + l) == 100 as real * g
        }),
{
    let (g, l) = (wilder(gains(candles), period), wilder(losses(candles), period));
    let q = g / l;
    lemma_quot_undone(g, l);
    assert(q >= 0 as real) by (nonlinear_arith)
        requires
            q * l == g,
            g >= 0 as real,
            l > 0 as real,
    ;
    let x = 100 as real / (1 as real + q);
    lemma_quot_undone(100 as real, 1 as real + q);
    assert((100 as real - x) * (g + l) == 100 as real * g) by (nonlinear_arith)
        requires
            q * l == g,
            x * (1 as real + q) == 100 as real,
    ;
}

/// A relative strength over a hundred is that of losses next to nothing; without
/// enough candles it stands in the middle.
pub proof fn law_rsi_at_its_ends(candles: Seq<Candle<real>>, period: int)
    requires
        1 <= period,
    ensures
        candles.len() <= period ==> rsi_of(candles, period) == 50 as real,
        candles.len() > period && wilder(losses(candles), period) < real::tiny() ==> rsi_of(
            candles,
            period,
        ) == 100 as real,
{
}

/// The exponential average is the mean of the first closes, and every further close
/// moves it by two parts in `period + 1`; while there are too few candles it is the
/// last close.
pub proof fn law_ema_moves_by_its_weight(candles: Seq<Candle<real>>, c: Candle<real>, period: int)
    requires
        1 <= period < u64::MAX,
    ensures
        candles.len() == 0 ==> ema_of(candles, period) == 0 as real,
        0 < candles.len() < period ==> ema_of(candles, period) == candles.last().close,
        candles.len() == period ==> ema_of(candles, period) * (period as real) == total(
            closes(candles),
        ),
        candles.len() >= period ==> (ema_of(candles.push(c), period) - ema_of(candles, period)) * (
        (period + 1) as real) == 2 as real * (c.close - ema_of(candles, period)),
{
    let p = period as real;
    if candles.len() >= period {
        let cs = closes(candles);
        let all = closes(candles.push(c));
        assert(all =~= cs.push(c.close));
        assert(all.take(period) =~= cs.take(period));
        assert(all.skip(period) =~= cs.skip(period).push(c.close));
        assert(all.skip(period).drop_last() =~= cs.skip(period));
        if candles.len() == period {
            assert(cs.take(period) =~= cs);
            assert(cs.skip(period) =~= Seq::empty());
            lemma_quot_undone(total(cs), p);
        }
        let e = ema_of(candles, period);
        let a = 2 as real / (p + 1 as real);
        lemma_quot_undone(2 as real, p + 1 as real);
        let n = c.close * a + e * (1 as real - a);
        assert((n - e) * (p + 1 as real) == 2 as real * (c.close - e)) by (nonlinear_arith)
            requires
                n == c.close * a + e * (1 as real - a),
                a * (p + 1 as real) == 2 as real,
        ;
    }
}

// The market
/// The trend goes the way of the averages: up only where the short one is over the
/// long one, down only where it is under it.
pub proof fn law_trend_goes_with_averages<S: Total>(
    candles: Seq<Candle<S>>,
    live_price: S,
    cap_pct: S,
)
    requires
        S::count(0).below(market_of(candles, live_price, cap_pct).ema50),
    ensures
        ({
            let m = market_of(candles, live_price, cap_pct);
            &&& m.trend is Up ==> m.ema50.below(m.ema20)
            &&& m.trend is Down ==> m.ema20.below(m.ema50)
        }),
{
    let m = market_of(candles, live_price, cap_pct);
    let (zero, one) = (S::count(0), S::count(1));
    let (more, less) = (ratio::<S>(1005, 1000), ratio::<S>(995, 1000));
    S::law_ratio_of_one(1);
    S::law_ratios(1, 1, 1005, 1000);
    S::law_ratios(995, 1000, 1, 1);
    lemma_not_below(more, one);
    lemma_not_below(one, less);
    S::law_strict(zero, m.ema50);
    S::law_unit(m.ema50);
    S::law_monotone(more, one, m.ema50);
    S::law_monotone(one, less, m.ema50);
    let (high, low) = (m.ema50.prod(more), m.ema50.prod(less));
    lemma_not_below(high, m.ema50);
    lemma_not_below(m.ema50, low);
    S::law_chain(m.ema50, high, m.ema20);
    S::law_chain(m.ema20, low, m.ema50);
}

/// Without rounding, the trend is up where the short average is more than half a
/// percent over the long one, down where it is more than that under it, and else
/// neither.
pub proof fn law_trend_by_half_a_percent(
    candles: Seq<Candle<real>>,
    live_price: real,
    cap_pct: real,
)
    requires
        market_of(candles, live_price, cap_pct).ema50 > 0 as real,
    ensures
        ({
            let m = market_of(candles, live_price, cap_pct);
            &&& m.trend is Up <==> 1000 as real * m.ema20 > 1005 as real * m.ema50
            &&& m.trend is Down <==> 1000 as real * m.ema20 < 995 as real * m.ema50
        }),
{
    let m = market_of(candles, live_price, cap_pct);
    lemma_part(m.ema50, 1005, 1000);
    lemma_part(m.ema50, 995, 1000);
}

/// The signal is bullish only with the price over the short average and that over the
/// longer one, and bearish only the other way round.
pub proof fn law_signal_goes_with_averages<S: Total>(
    candles: Seq<Candle<S>>,
    live_price: S,
    cap_pct: S,
)
    requires
        S::count(0).below(market_of(candles, live_price, cap_pct).ema21),
    ensures
        ({
            let m = market_of(candles, live_price, cap_pct);
            &&& m.trend_signal is Bullish ==> m.ema21.below(m.ema9) && m.ema9.below(live_price)
            &&& m.trend_signal is Bearish ==> m.ema9.below(m.ema21) && live_price.below(m.ema9)
        }),
{
    let m = market_of(candles, live_price, cap_pct);
    let (zero, one) = (S::count(0), S::count(1));
    let (more, less) = (ratio::<S>(10_005, 10_000), ratio::<S>(9_995, 10_000));
    S::law_ratio_of_one(1);
    S::law_ratios(1, 1, 10_005, 10_000);
    S::law_ratios(9_995, 10_000, 1, 1);
    lemma_not_below(more, one);
    lemma_not_below(one, less);
    S::law_strict(zero, m.ema21);
    S::law_unit(m.ema21);
    S::law_monotone(more, one, m.ema21);
    S::law_monotone(one, less, m.ema21);
    let (high, low) = (m.ema21.prod(more), m.ema21.prod(less));
    lemma_not_below(high, m.ema21);
    lemma_not_below(m.ema21, low);
    S::law_chain(m.ema21, high, m.ema9);
    S::law_chain(m.ema9, low, m.ema21);
}

/// Without rounding, the signal needs half a thousandth between the averages.
pub proof fn law_signal_by_half_a_thousandth(
    candles: Seq<Candle<real>>,
    live_price: real,
    cap_pct: real,
)
    requires
        market_of(candles, live_price, cap_pct).ema21 > 0 as real,
    ensures
        ({
            let m = market_of(candles, live_price, cap_pct);
            &&& m.trend_signal is Bullish <==> 10_000 as real * m.ema9 > 10_005 as real * m.ema21
                && live_price > m.ema9
            &&& m.trend_signal is Bearish <==> 10_000 as real * m.ema9 < 9_995 as real * m.ema21
                && live_price < m.ema9
        }),
{
    let m = market_of(candles, live_price, cap_pct);
    lemma_part(m.ema21, 10_005, 10_000);
    lemma_part(m.ema21, 9_995, 10_000);
}

/// Without rounding, the regime is low where the range is under eight thousandths of
/// the price, medium where it is under twenty, and else high; the bucket counts it.
pub proof fn law_regime_by_relative_range(atr: real, price: real)
    requires
        price > 0 as real,
    ensures
        regime_of(atr, price) is Low <==> 1000 as real * atr < 8 as real * price,
        regime_of(atr, price) is Medium <==> 8 as real * price <= 1000 as real * atr && 1000
            as real * atr < 20 as real * price,
        regime_of(atr, price) is High <==> 20 as real * price <= 1000 as real * atr,
        bucket_of(atr, price) == 0 <==> 1000 as real * atr < 8 as real * price,
        bucket_of(atr, price) == 2 <==> 20 as real * price <= 1000 as real * atr,
        bucket_of(atr, price) <= 2,
{
    lemma_ratio_undone(8, 1000);
    lemma_ratio_undone(20, 1000);
    let r = atr / price;
    lemma_quot_undone(atr, price);
    assert((1000 as real * r < 8 as real) <==> (1000 as real * atr < 8 as real * price))
        by (nonlinear_arith)
        requires
            r * price == atr,
            price > 0 as real,
    ;
    assert((1000 as real * r < 20 as real) <==> (1000 as real * atr < 20 as real * price))
        by (nonlinear_arith)
        requires
            r * price == atr,
            price > 0 as real,
    ;
}

/// Without rounding, the spread in basis points between its ends is fifteen percent
/// of the relative range, times eight, twelve or twenty-five tenths by the regime.
pub proof fn law_spread_is_a_part_of_the_range(atr: real, price: real, regime: Regime)
    requires
        price > 0 as real,
    ensures
        ({
            let s = spread_of(atr, price, regime);
            let f = match regime {
                Regime::Low => 8 as real,
                Regime::Medium => 12 as real,
                Regime::High => 25 as real,
            };
            &&& 1 as real <= 2 as real * s && s <= 30 as real
            &&& 2 as real * s > 1 as real && s < 30 as real ==> s * price == 150 as real * f * atr
            &&& 2 as real * s == 1 as real ==> s * price >= 150 as real * f * atr
            &&& s == 30 as real ==> s * price <= 150 as real * f * atr
        }),
{
    let f = match regime {
        Regime::Low => 8 as real,
        Regime::Medium => 12 as real,
        Regime::High => 25 as real,
    };
    let r = atr / price;
    lemma_quot_undone(atr, price);
    let a = r * 10_000 as real;
    lemma_part(a, 15, 100);
    let b = a.prod(ratio(15, 100));
    lemma_part(b, 8, 10);
    lemma_part(b, 12, 10);
    lemma_part(b, 25, 10);
    let raw = match regime {
        Regime::Low => b.prod(ratio(8, 10)),
        Regime::Medium => b.prod(ratio(12, 10)),
        Regime::High => b.prod(ratio(25, 10)),
    };
    assert(raw * 10 as real == b * f);
    assert(raw * price == 150 as real * f * atr) by (nonlinear_arith)
        requires
            raw * 10 as real == b * f,
            b * 100 as real == a * 15 as real,
            a == r * 10_000 as real,
            r * price == atr,
    ;
    let half = ratio::<real>(5, 10);
    assert(2 as real * half == 1 as real);
    if raw < half {
        assert(half * price >= raw * price) by (nonlinear_arith)
            requires
                raw < half,
                price > 0 as real,
        ;
    } else if raw > 30 as real {
        assert(30 as real * price <= raw * price) by (nonlinear_arith)
            requires
                raw > 30 as real,
                price > 0 as real,
        ;
    }
}

/// The analysis reads each figure from the right candles: the range and the relative
/// strength over fourteen, the averages over nine, twenty, twenty-one and fifty, the
/// regime and the spread from the range at the live price.
pub proof fn law_market_reads_its_candles(
    candles: Seq<Candle<real>>,
    live_price: real,
    cap_pct: real,
)
    requires
        candles.len() > 0,
    ensures
        ({
            let m = market_of(candles, live_price, cap_pct);
            let n = candles.len();
            let last = candles.last().close;
            let sum = total(closes(candles));
            &&& m.price == live_price
            &&& n <= 14 ==> m.atr == 0 as real && m.rsi == 50 as real
            &&& n == 15 ==> m.atr * 14 as real == total(true_ranges(candles, cap_pct))
            &&& n == 15 && total(losses(candles)) == 0 as real ==> m.rsi == 100 as real
            &&& n < 9 ==> m.ema9 == last
            &&& n == 9 ==> m.ema9 * 9 as real == sum
            &&& n < 20 ==> m.ema20 == last
            &&& n == 20 ==> m.ema20 * 20 as real == sum
            &&& n < 21 ==> m.ema21 == last
            &&& n == 21 ==> m.ema21 * 21 as real == sum
            &&& n < 50 ==> m.ema50 == last
            &&& n == 50 ==> m.ema50 * 50 as real == sum
            &&& live_price > 0 as real ==> {
                &&& m.regime is Low <==> 1000 as real * m.atr < 8 as real * live_price
                &&& m.regime is High <==> 20 as real * live_price <= 1000 as real * m.atr
                &&& m.spread_bps == spread_of(m.atr, live_price, m.regime)
            }
            &&& n <= 20 ==> m.wick_profile == WickProfile::of(candles)
        }),
{
    let c = candles[0];
    law_atr_averages_true_ranges(candles, c, 14, cap_pct);
    law_rsi_at_its_ends(candles, 14);
    law_ema_moves_by_its_weight(candles, c, 9);
    law_ema_moves_by_its_weight(candles, c, 20);
    law_ema_moves_by_its_weight(candles, c, 21);
    law_ema_moves_by_its_weight(candles, c, 50);
    let m = market_of(candles, live_price, cap_pct);
    if live_price > 0 as real {
        law_regime_by_relative_range(m.atr, live_price);
    }
    if candles.len() == 15 {
        let ls = losses(candles);
        assert(ls.take(14) =~= ls);
        law_wilder_moves_by_a_part(ls, 0 as real, 14);
        if total(ls) == 0 as real {
            let w = wilder(ls, 14);
            assert(w == 0 as real) by (nonlinear_arith)
                requires
                    w * 14 as real == 0 as real,
            ;
        }
    }
    if candles.len() == 20 {
        assert(candles.skip(0) =~= candles);
    }
}

/// The wick profile looks at the last twenty candles and no others.
pub proof fn law_profile_looks_at_twenty_candles<S: Value>(
    older: Seq<Candle<S>>,
    others: Seq<Candle<S>>,
    newest: Seq<Candle<S>>,
    live_price: S,
    cap_pct: S,
)
    requires
        newest.len() == 20,
    ensures
        market_of(older + newest, live_price, cap_pct).wick_profile == WickProfile::of(newest),
        market_of(older + newest, live_price, cap_pct).wick_profile == market_of(
            others + newest,
            live_price,
            cap_pct,
        ).wick_profile,
{
    assert((older + newest).skip(older.len() as int) =~= newest);
    assert((others + newest).skip(others.len() as int) =~= newest);
}

// Candles of the exchange
/// A raw candle counts if and only if its four prices can be read, the high, the low
/// and the close are positive, the high is not under the low, and the range is within
/// twice the cap; it then has those prices.
pub proof fn law_raw_candle_counts_if_sound(k: RawKline, cap_pct: real)
    ensures
        candle_of::<real>(k, cap_pct) is Some <==> {
            &&& real::reading(k.1@) is Some
            &&& real::reading(k.2@) matches Some(high) && real::reading(k.3@) matches Some(low)
                && real::reading(k.4@) matches Some(close) && high > 0 as real && low > 0 as real
                && close > 0 as real && low <= high && 100 as real * (high - low) <= 2 as real
                * cap_pct * close
        },
        candle_of::<real>(k, cap_pct) matches Some(c) ==> {
            &&& real::reading(k.1@) == Some(c.open)
            &&& real::reading(k.2@) == Some(c.high)
            &&& real::reading(k.3@) == Some(c.low)
            &&& real::reading(k.4@) == Some(c.close)
        },
{
    if let (Some(high), Some(low), Some(close)) = (
        real::reading(k.2@),
        real::reading(k.3@),
        real::reading(k.4@),
    ) {
        if close > 0 as real {
            let r = (high - low) / close;
            lemma_quot_undone(high - low, close);
            assert((r * 100 as real > cap_pct * 2 as real) <==> (2 as real * cap_pct * close < 100
                as real * (high - low))) by (nonlinear_arith)
                requires
                    r * close == high - low,
                    close > 0 as real,
            ;
        }
    }
}

/// The candles of an answer come one after the other, each from its own row.
pub proof fn law_raw_candles_keep_their_order<S: Value>(
    a: Seq<RawKline>,
    b: Seq<RawKline>,
    k: RawKline,
    cap_pct: S,
)
    ensures
        candles_of(a + b, cap_pct) == candles_of(a, cap_pct) + candles_of(b, cap_pct),
        candles_of(seq![k], cap_pct) == match candle_of(k, cap_pct) {
            Some(c) => seq![c],
            None => Seq::empty(),
        },
    decreases b.len(),
{
    reveal_with_fuel(candles_of, 2);
    assert(seq![k].drop_last() =~= Seq::empty());
    match candle_of::<S>(k, cap_pct) {
        Some(c) => {
            assert(Seq::<Candle<S>>::empty().push(c) =~= seq![c]);
        },
        None => {},
    }
    if b.len() == 0 {
        assert(a + b =~= a);
        assert(candles_of(a, cap_pct) + candles_of(b, cap_pct) =~= candles_of(a, cap_pct));
    } else {
        assert((a + b).drop_last() =~= a + b.drop_last());
        assert((a + b).last() == b.last());
        law_raw_candles_keep_their_order(a, b.drop_last(), k, cap_pct);
        let (x, y) = (candles_of(a, cap_pct), candles_of(b.drop_last(), cap_pct));
        match candle_of::<S>(b.last(), cap_pct) {
            Some(c) => {
                assert((x + y).push(c) =~= x + y.push(c));
            },
            None => {},
        }
    }
}

// Latencies
/// The mean of latencies is the whole part of what each would be if all were the same,
/// and lies between the least and the greatest, which are among them; of no latencies
/// there are no figures.
pub proof fn law_latencies_are_told(s: Seq<u64>, r: Option<(u64, u64, u64, real)>)
    requires
        tells_latencies(s, r),
    ensures
        r is None <==> s.len() == 0,
        r matches Some((avg, min, max, _)) ==> {
            &&& avg * s.len() <= latency_sum(s) < (avg + 1) * s.len()
            &&& s.contains(min) && s.contains(max)
            &&& forall|i: int| 0 <= i < s.len() ==> min <= #[trigger] s[i] <= max
        },
{
    if let Some((avg, min, max, _)) = r {
        let (t, n) = (latency_sum(s) as int, s.len() as int);
        assert(t / n * n <= t < (t / n + 1) * n) by (nonlinear_arith)
            requires
                n > 0,
        ;
    }
}

/// A latency adds itself to the sum; without rounding, the square of the deviation is
/// the mean of the squared distances from the mean, each of them taken once.
pub proof fn law_latencies_deviate_from_their_mean(s: Seq<u64>, x: u64)
    requires
        s.len() > 0,
        s.len() <= u64::MAX,
        ({
            let spread = total(square_distances::<real>(s)) / (s.len() as real);
            is_real_root(spread, spread.root())
        }),
        forall|i: int|
            0 <= i < s.len() ==> (#[trigger] s[i] - latency_mean(s)) * (s[i] - latency_mean(s))
                <= u64::MAX,
    ensures
        latency_sum(s.push(x)) == latency_sum(s) + x,
        latency_sum(Seq::<u64>::empty()) == 0,
        ({
            let d = latency_deviation::<real>(s);
            d * d * (s.len() as real) == total(square_distances::<real>(s))
        }),
        square_distances::<real>(s).len() == s.len(),
        forall|i: int|
            0 <= i < s.len() ==> #[trigger] square_distances::<real>(s)[i] == ((s[i] - latency_mean(
                s,
            )) * (s[i] - latency_mean(s))) as real,
{
    assert(s.push(x).drop_last() =~= s);
    let sum = total(square_distances::<real>(s));
    assert(s.len() as u64 as real == s.len() as real);
    lemma_quot_undone(sum, s.len() as real);
    assert forall|i: int| 0 <= i < s.len() implies #[trigger] square_distances::<real>(s)[i] == ((
    s[i] - latency_mean(s)) * (s[i] - latency_mean(s))) as real by {
        let y = s[i] - latency_mean(s);
        assert(y * y >= 0) by (nonlinear_arith);
    }
}

/// The words for whether trading goes on begin with their own letters, so no two are
/// the same.
pub proof fn law_statuses_have_their_words(a: TradingStatus)
    ensures
        a is Active <==> a.word()[0] == 'A',
        a is PausedUntil <==> a.word()[0] == 'P',
        a is SafetySwitchTripped <==> a.word()[0] == 'T',
        a is Active ==> a.word() == "ACTIVE"@,
        a is PausedUntil ==> a.word() == "PAUSED"@,
{
    reveal_strlit("ACTIVE");
    reveal_strlit("PAUSED");
    reveal_strlit("TRIPPED");
}

} // verus!
