//! What risk management is for: when trading stops or pauses, and how large a
//! position may be.
use vstd::prelude::*;

use crate::config::BotConfig;
use crate::exact::{lemma_nearest_is_near, lemma_quot_undone};
use crate::grid::lemma_part;
use crate::models::{MarketState, Regime, TradingStatus, TrendSignal};
use crate::number::Value;
use crate::risk::{answers_backtest, answers_live, backtest_reason, drawdown_from, live_reason};
use crate::risk::{to_four_places, BacktestStatus, Risk, Verdict};
use crate::text::ends_with;

verus! {

// The course of the capital
/// The limits are those of the configuration, and everything starts from its capital;
/// the safety switch is half as far again as the drawdown limit.
pub proof fn law_limits_come_from_the_configuration(cfg: BotConfig<real>)
    ensures
        ({
            let risk = Risk::of(cfg);
            &&& risk.initial == cfg.total_capital
            &&& risk.peak == cfg.total_capital
            &&& risk.snapshot == cfg.total_capital
            &&& risk.returns.len() == 0
            &&& risk.max_loss == cfg.max_loss_pct
            &&& risk.max_drawdown == cfg.max_drawdown_pct
            &&& risk.profit_target == cfg.profit_target_pct
            &&& risk.single_trade == cfg.max_single_trade_pct
            &&& 2 as real * risk.safety == 3 as real * cfg.max_drawdown_pct
        }),
{
    lemma_part(cfg.max_drawdown_pct, 15, 10);
}

/// Another configuration brings other limits; what the capital went through stays.
pub proof fn law_new_limits_keep_the_course(risk: Risk<real>, cfg: BotConfig<real>)
    ensures
        ({
            let after = risk.under(cfg);
            &&& after.initial == risk.initial && after.peak == risk.peak
            &&& after.snapshot == risk.snapshot && after.returns == risk.returns
            &&& after.max_loss == cfg.max_loss_pct
            &&& after.max_drawdown == cfg.max_drawdown_pct
            &&& after.profit_target == cfg.profit_target_pct
            &&& after.single_trade == cfg.max_single_trade_pct
            &&& 2 as real * after.safety == 3 as real * cfg.max_drawdown_pct
        }),
{
    lemma_part(cfg.max_drawdown_pct, 15, 10);
}

/// The peak is the highest value seen: it becomes the new value where that is higher,
/// and stays elsewhere; nothing else changes.
pub proof fn law_peak_is_the_highest_value(risk: Risk<real>, current: real)
    ensures
        ({
            let after = risk.seen(current);
            &&& after.peak >= risk.peak && after.peak >= current
            &&& after.peak == risk.peak || after.peak == current
            &&& after.initial == risk.initial && after.returns == risk.returns
            &&& after.snapshot == risk.snapshot && after.safety == risk.safety
            &&& after.max_loss == risk.max_loss && after.max_drawdown == risk.max_drawdown
            &&& after.profit_target == risk.profit_target
            &&& after.single_trade == risk.single_trade
        }),
{
}

/// Without rounding, a day's return times the last snapshot is what the value gained
/// since; the value is the next snapshot.
pub proof fn law_daily_return_is_the_gain(risk: Risk<real>, val: real)
    ensures
        ({
            let after = risk.after_day(val);
            &&& after.snapshot == val
            &&& after.peak == risk.peak && after.initial == risk.initial
            &&& after.safety == risk.safety && after.max_loss == risk.max_loss
            &&& after.max_drawdown == risk.max_drawdown
            &&& after.profit_target == risk.profit_target
            &&& after.single_trade == risk.single_trade
            &&& risk.snapshot <= real::tiny() ==> after.returns == risk.returns
            &&& risk.snapshot > real::tiny() ==> {
                &&& after.returns.len() == risk.returns.len() + 1
                &&& after.returns.drop_last() == risk.returns
                &&& after.returns.last() * risk.snapshot == val - risk.snapshot
                &&& val > risk.snapshot <==> after.returns.last() > 0 as real
                &&& val < risk.snapshot <==> after.returns.last() < 0 as real
            }
        }),
{
    let s = risk.snapshot;
    let after = risk.after_day(val);
    if s > real::tiny() {
        let x = (val - s) / s;
        lemma_quot_undone(val - s, s);
        assert(after.returns.drop_last() =~= risk.returns);
        assert((x > 0 as real <==> val > s) && (x < 0 as real <==> val < s)) by (nonlinear_arith)
            requires
                x * s == val - s,
                s > 0 as real,
        ;
    }
}

/// Without rounding, a drawdown in percent is what is lost of the peak.
pub proof fn law_drawdown_is_the_loss_on_the_peak(peak: real, current: real)
    ensures
        peak > 0 as real ==> drawdown_from(peak, current) * peak == 100 as real * (peak - current),
        peak <= 0 as real ==> drawdown_from(peak, current) == 0 as real,
{
    if peak > 0 as real {
        let q = (peak - current) / peak;
        lemma_quot_undone(peak - current, peak);
        assert((q * 100 as real) * peak == 100 as real * (peak - current)) by (nonlinear_arith)
            requires
                q * peak == peak - current,
        ;
    }
}

// Verdicts
/// A share in percent against its limit.
proof fn lemma_percent(part: real, whole: real, limit: real)
    requires
        whole > 0 as real,
    ensures
        ((part / whole) * 100 as real) * whole == 100 as real * part,
        limit <= (part / whole) * 100 as real <==> limit * whole <= 100 as real * part,
{
    let q = part / whole;
    lemma_quot_undone(part, whole);
    assert((q * 100 as real) * whole == 100 as real * part && (limit <= q * 100 as real <==> limit
        * whole <= 100 as real * part)) by (nonlinear_arith)
        requires
            q * whole == part,
            whole > 0 as real,
    ;
}

/// Without rounding: the safety switch trips on a drawdown at its threshold; short of
/// that a loss of the initial capital at its limit stops; short of both a drawdown at
/// its limit; short of all a profit at its target; and each tells the percentage that
/// reached the limit.
pub proof fn law_limits_decide_in_order(risk: Risk<real>, current: real)
    requires
        risk.initial > 0 as real,
        risk.peak > 0 as real,
    ensures
        ({
            let peak = if current > risk.peak {
                current
            } else {
                risk.peak
            };
            let fall = 100 as real * (peak - current);
            let loss = 100 as real * (risk.initial - current);
            let v = risk.verdict_at(current);
            let tripped = risk.safety * peak <= fall;
            let lost = risk.max_loss * risk.initial <= loss;
            let fallen = risk.max_drawdown * peak <= fall;
            let won = risk.profit_target * risk.initial <= -loss;
            &&& v is Safety <==> tripped
            &&& v is StopLoss <==> !tripped && lost
            &&& v is MaxDrawdown <==> !tripped && !lost && fallen
            &&& v is TakeProfit <==> !tripped && !lost && !fallen && won
            &&& v is Clear <==> !tripped && !lost && !fallen && !won
            &&& v matches Verdict::Safety(x) ==> x * peak == fall
            &&& v matches Verdict::StopLoss(x) ==> x * risk.initial == loss
            &&& v matches Verdict::MaxDrawdown(x) ==> x * peak == fall
            &&& v matches Verdict::TakeProfit(x) ==> x * risk.initial == -loss
        }),
{
    let peak = risk.seen(current).peak;
    lemma_percent(peak - current, peak, risk.safety);
    lemma_percent(peak - current, peak, risk.max_drawdown);
    lemma_percent(risk.initial - current, risk.initial, risk.max_loss);
    lemma_percent(current - risk.initial, risk.initial, risk.profit_target);
}

// What follows from a verdict
/// Where no limit is reached, live trading pauses if and only if the signal is bearish
/// and the regime high, for a minute; with any other signal or regime it is active, and
/// there is no reason to tell.
pub proof fn law_live_pauses_in_a_storm_alone<S: Value>(
    status: TradingStatus,
    reason: Seq<char>,
    risk: Risk<S>,
    current: S,
    state: MarketState<S>,
    now: u64,
)
    requires
        answers_live(status, reason, risk, current, state, now),
        risk.verdict_at(current) is Clear,
        now <= u64::MAX - 300_000,
    ensures
        state.trend_signal is Bearish && state.regime is High ==> {
            &&& status matches TradingStatus::PausedUntil(until) && until == now + 60_000
            &&& reason.len() > 0
        },
        state.trend_signal is Bullish || state.trend_signal is Caution ==> status is Active
            && reason.len() == 0,
        state.regime is Low || state.regime is Medium ==> status is Active && reason.len() == 0,
{
    reveal_strlit("");
    reveal_strlit("⚠️ Bearish + High Vol");
    assert("⚠️ Bearish + High Vol"@.len() > 0);
}

/// A limit that is reached decides in any market: the safety switch ends live trading,
/// any other limit pauses it for five minutes, and both tell why.
pub proof fn law_live_obeys_its_limits<S: Value>(
    status: TradingStatus,
    reason: Seq<char>,
    risk: Risk<S>,
    current: S,
    state: MarketState<S>,
    now: u64,
)
    requires
        answers_live(status, reason, risk, current, state, now),
        now <= u64::MAX - 300_000,
    ensures
        status is SafetySwitchTripped <==> risk.verdict_at(current) is Safety,
        status matches TradingStatus::SafetySwitchTripped { reason: told } ==> told@ == reason,
        risk.verdict_at(current) is StopLoss || risk.verdict_at(current) is MaxDrawdown
            || risk.verdict_at(current) is TakeProfit ==> status
            == TradingStatus::PausedUntil((now + 300_000) as u64),
        status is Active ==> risk.verdict_at(current) is Clear,
        reason.len() == 0 <==> status is Active,
{
    reveal_strlit("");
    reveal_strlit("%");
    reveal_strlit("⚠️ Bearish + High Vol");
    assert("⚠️ Bearish + High Vol"@.len() > 0);
}

/// In a backtest the safety switch stops for good, any other limit pauses until the
/// given tick, and without one it goes on; the market plays no part.
pub proof fn law_backtest_obeys_its_limits<S: Value>(
    status: BacktestStatus,
    reason: Seq<char>,
    risk: Risk<S>,
    current: S,
    until: u64,
)
    requires
        answers_backtest(status, reason, risk, current, until),
    ensures
        status is Stopped <==> risk.verdict_at(current) is Safety,
        status matches BacktestStatus::Stopped(told) ==> told@ == reason,
        status is Active <==> risk.verdict_at(current) is Clear,
        status matches BacktestStatus::PausedUntilTick(tick) ==> tick == until,
        reason.len() == 0 <==> status is Active,
{
    reveal_strlit("");
    reveal_strlit("%");
}

/// A reason ends in the percentage that reached the limit, in two decimal places; the
/// live text of the safety switch goes on with its threshold in one.
pub proof fn law_reasons_tell_their_percentage<S: Value>(verdict: Verdict<S>, safety: S)
    ensures
        verdict matches Verdict::Safety(x) ==> ends_with(
            backtest_reason(verdict),
            x.digits(2) + seq!['%'],
        ) && ends_with(live_reason(verdict, safety), safety.digits(1) + seq!['%']),
        verdict matches Verdict::StopLoss(x) ==> ends_with(
            backtest_reason(verdict),
            x.digits(2) + seq!['%'],
        ),
        verdict matches Verdict::MaxDrawdown(x) ==> ends_with(
            backtest_reason(verdict),
            x.digits(2) + seq!['%'],
        ),
        verdict matches Verdict::TakeProfit(x) ==> ends_with(
            backtest_reason(verdict),
            x.digits(2) + seq!['%'],
        ),
        !(verdict is Safety) ==> live_reason(verdict, safety) == backtest_reason(verdict),
{
    reveal_strlit("%");
    assert("%"@ =~= seq!['%']);
    let text = backtest_reason(verdict);
    match verdict {
        Verdict::Safety(x) => {
            let (a, b) = ("🔴 SAFETY SWITCH: DD "@, x.digits(2) + seq!['%']);
            assert(text =~= a + b);
            assert(text.skip(text.len() - b.len()) =~= b);
            let live = live_reason(verdict, safety);
            let (c, d) = (a + x.digits(2) + "% ≥ "@, safety.digits(1) + seq!['%']);
            assert(live =~= c + d);
            assert(live.skip(live.len() - d.len()) =~= d);
        },
        Verdict::StopLoss(x) => {
            let (a, b) = ("🛑 Stop Loss "@, x.digits(2) + seq!['%']);
            assert(text =~= a + b);
            assert(text.skip(text.len() - b.len()) =~= b);
        },
        Verdict::MaxDrawdown(x) => {
            let (a, b) = ("🛑 Max Drawdown "@, x.digits(2) + seq!['%']);
            assert(text =~= a + b);
            assert(text.skip(text.len() - b.len()) =~= b);
        },
        Verdict::TakeProfit(x) => {
            let (a, b) = ("✅ Take Profit "@, x.digits(2) + seq!['%']);
            assert(text =~= a + b);
            assert(text.skip(text.len() - b.len()) =~= b);
        },
        Verdict::Clear => {},
    }
}

// Positions
/// Without rounding but for the four places of the result, a position is the share of
/// the capital that one trade may take: halved in a high regime and three quarters in a
/// medium one, six tenths where the market is overbought or oversold, and more or less
/// by the signal.
pub proof fn law_position_is_a_share_of_capital(
    risk: Risk<real>,
    capital: real,
    state: MarketState<real>,
)
    ensures
        ({
            let r = match state.regime {
                Regime::High => 50 as real,
                Regime::Medium => 75 as real,
                Regime::Low => 100 as real,
            };
            let s = if state.rsi > 75 as real || state.rsi < 25 as real {
                60 as real
            } else {
                100 as real
            };
            let t = match state.trend_signal {
                TrendSignal::Bullish => 120 as real,
                TrendSignal::Caution => 85 as real,
                TrendSignal::Bearish => 70 as real,
            };
            let exact = capital * risk.single_trade * r * s * t;
            let gap = risk.size_of_position(capital, state) * 1_000_000 as real - exact;
            -(50 as real) <= gap && gap <= 50 as real
        }),
{
    let r = match state.regime {
        Regime::High => 50 as real,
        Regime::Medium => 75 as real,
        Regime::Low => 100 as real,
    };
    let s = if state.rsi > 75 as real || state.rsi < 25 as real {
        60 as real
    } else {
        100 as real
    };
    let t = match state.trend_signal {
        TrendSignal::Bullish => 120 as real,
        TrendSignal::Caution => 85 as real,
        TrendSignal::Bearish => 70 as real,
    };
    let x = capital * risk.single_trade;
    lemma_part(x, 50, 100);
    lemma_part(x, 75, 100);
    assert(x * 1 as real == x) by (nonlinear_arith);
    let a = x.prod(crate::risk::regime_share(state.regime));
    assert(a * 100 as real == x * r);
    lemma_part(a, 60, 100);
    assert(a * 1 as real == a) by (nonlinear_arith);
    let b = a.prod(crate::risk::rsi_share(state.rsi));
    assert(b * 100 as real == a * s);
    lemma_part(b, 120, 100);
    lemma_part(b, 85, 100);
    lemma_part(b, 70, 100);
    let c = b.prod(state.trend_signal.position_factor());
    assert(c * 100 as real == b * t);
    let y = c * 10_000 as real;
    lemma_nearest_is_near(y);
    lemma_quot_undone(y.nearest(), 10_000 as real);
    let size = to_four_places(c);
    assert(c * 1_000_000 as real == x * r * s * t) by (nonlinear_arith)
        requires
            a * 100 as real == x * r,
            b * 100 as real == a * s,
            c * 100 as real == b * t,
    ;
    assert(size * 10_000 as real == y.nearest());
    lemma_quot_undone(1 as real, 2 as real);
    lemma_quot_undone(-(1 as real), 2 as real);
    let gap = y.nearest() - y;
    assert(-(1 as real) <= gap * 2 as real && gap * 2 as real <= 1 as real);
    assert(risk.size_of_position(capital, state) == size);
    assert(size * 1_000_000 as real - c * 1_000_000 as real == gap * 100 as real);
}

/// Another profit target leaves every other limit, and the course, as they were.
pub proof fn law_target_changes_alone<S: Value>(risk: Risk<S>, pct: S)
    ensures
        risk.aiming_at(pct).profit_target == pct,
        risk.aiming_at(pct).aiming_at(risk.profit_target) == risk,
        risk.aiming_at(pct).peak == risk.peak,
        risk.aiming_at(pct).safety == risk.safety,
{
}

} // verus!
