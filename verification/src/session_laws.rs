//! What a session is for: when it looks at the market, when it trades, what it reports,
//! and with which configuration it may run.
use vstd::arithmetic::div_mod::lemma_small_mod;
use vstd::arithmetic::power2::{lemma2_to64, lemma_pow2_unfold, pow2};
use vstd::prelude::*;

use crate::config::BotConfig;
use crate::exact::{lemma_quot_undone, lemma_ratio_undone};
use crate::grid::grid_of;
use crate::live::{can_run, taken_up, LiveSession, LiveStep, TickReport};
use crate::models::{GridLevel, MarketState, OptResult, Side};
use crate::number::{total, Value};
use crate::optimizer::best_of;
use crate::paper::{count_side, values_of, PaperTrader};
use crate::report::{tells_session, SessionReport};
use crate::risk::Risk;

verus! {

// Configurations
/// Without rounding, a configuration may be used if and only if there is capital, an
/// even number of at least two levels, a loss limit between nothing and all, a trade of
/// some share of the capital, a slippage up to a hundredth, a least value of one or more,
/// and both keys where real orders are placed.
pub proof fn law_sound_configurations(cfg: BotConfig<real>, key: Seq<char>, secret: Seq<char>)
    ensures
        cfg.is_sound(key, secret) <==> {
            &&& cfg.total_capital > 0 as real
            &&& cfg.grid_levels >= 2 && cfg.grid_levels % 2 == 0
            &&& cfg.max_loss_pct > 0 as real && cfg.max_loss_pct < 100 as real
            &&& cfg.max_single_trade_pct > 0 as real && cfg.max_single_trade_pct <= 1 as real
            &&& cfg.slippage_pct >= 0 as real && 100 as real * cfg.slippage_pct <= 1 as real
            &&& cfg.min_notional_usdt >= 1 as real
            &&& cfg.mode@ == "live"@ ==> key.len() > 0 && secret.len() > 0
        },
        cfg.is_sound(key, secret) <==> cfg.faults(key, secret).len() == 0,
{
    lemma_ratio_undone(1, 100);
}

/// Without rounding, every fault is told under its own name, and no other is.
pub proof fn law_faults_are_told(cfg: BotConfig<real>, key: Seq<char>, secret: Seq<char>)
    ensures
        ({
            let f = cfg.faults(key, secret);
            &&& cfg.total_capital <= 0 as real ==> f.contains("total_capital must be > 0"@)
            &&& cfg.grid_levels < 2 || cfg.grid_levels % 2 == 1 ==> f.contains(
                "grid_levels must be even and ≥ 2"@,
            )
            &&& cfg.max_loss_pct <= 0 as real || cfg.max_loss_pct >= 100 as real ==> f.contains(
                "max_loss_pct must be 0..100"@,
            )
            &&& cfg.max_single_trade_pct <= 0 as real || cfg.max_single_trade_pct > 1 as real
                ==> f.contains("max_single_trade_pct must be 0..1"@)
            &&& cfg.slippage_pct < 0 as real || 100 as real * cfg.slippage_pct > 1 as real
                ==> f.contains("slippage_pct must be 0..0.01"@)
            &&& cfg.min_notional_usdt < 1 as real ==> f.contains("min_notional_usdt must be ≥ 1"@)
            &&& cfg.mode@ == "live"@ && (key.len() == 0 || secret.len() == 0) ==> f.contains(
                "LIVE mode requires BINANCE_API_KEY + BINANCE_API_SECRET in .env"@,
            )
        }),
{
    lemma_ratio_undone(1, 100);
    let f = cfg.faults(key, secret);
    let a = crate::config::fault(cfg.capital_is_bad(), "total_capital must be > 0"@);
    let b = crate::config::fault(cfg.levels_are_bad(), "grid_levels must be even and ≥ 2"@);
    let c = crate::config::fault(cfg.max_loss_is_bad(), "max_loss_pct must be 0..100"@);
    let d = crate::config::fault(cfg.single_trade_is_bad(), "max_single_trade_pct must be 0..1"@);
    let e = crate::config::fault(cfg.slippage_is_bad(), "slippage_pct must be 0..0.01"@);
    let g = crate::config::fault(cfg.notional_is_bad(), "min_notional_usdt must be ≥ 1"@);
    let h = crate::config::fault(
        cfg.keys_are_missing(key, secret),
        "LIVE mode requires BINANCE_API_KEY + BINANCE_API_SECRET in .env"@,
    );
    let (n1, n2) = (a.len() as int, (a + b).len() as int);
    let (n3, n4) = ((a + b + c).len() as int, (a + b + c + d).len() as int);
    let (n5, n6) = ((a + b + c + d + e).len() as int, (a + b + c + d + e + g).len() as int);
    assert(f =~= a + b + c + d + e + g + h);
    if a.len() > 0 {
        assert(f[0] == a[0]);
    }
    if b.len() > 0 {
        assert(f[n1] == b[0]);
    }
    if c.len() > 0 {
        assert(f[n2] == c[0]);
    }
    if d.len() > 0 {
        assert(f[n3] == d[0]);
    }
    if e.len() > 0 {
        assert(f[n4] == e[0]);
    }
    if g.len() > 0 {
        assert(f[n5] == g[0]);
    }
    if h.len() > 0 {
        assert(f[n6] == h[0]);
    }
}

/// A configuration that is taken up under way brings everything new but the pair and the
/// capital; its mode counts only where real orders are placed, so no session starts to
/// place them.
pub proof fn law_new_configuration_keeps_pair_and_capital<S: Value>(
    running: BotConfig<S>,
    new: BotConfig<S>,
)
    ensures
        ({
            let next = taken_up(running, new);
            &&& next.symbol == running.symbol && next.total_capital == running.total_capital
            &&& next.mode@ == "live"@ ==> running.mode@ == "live"@
            &&& running.mode@ == "live"@ ==> next.mode == new.mode
            &&& running.mode@ != "live"@ ==> next.mode == running.mode
            &&& next == (BotConfig {
                symbol: running.symbol,
                total_capital: running.total_capital,
                mode: next.mode,
                ..new
            })
        }),
{
}

// Ticks
/// A session looks at the market at its first tick and then exactly once in every
/// rebuild period.
pub proof fn law_market_is_looked_at_once_per_period<S: Value>(
    s: LiveSession<S>,
    later: LiveSession<S>,
    ticks: u64,
)
    requires
        can_run(s.cfg),
        later.cfg == s.cfg,
        later.tick == s.tick + ticks,
        s.looks_next(),
    ensures
        ticks < s.cfg.grid_rebuild_ticks && ticks > 0 ==> !later.looks_next(),
        ticks == s.cfg.grid_rebuild_ticks ==> later.looks_next(),
        s.tick == 0 ==> s.looks_next(),
{
    let (p, t, d) = (s.cfg.grid_rebuild_ticks as int, s.tick as int, ticks as int);
    vstd::arithmetic::div_mod::lemma_fundamental_div_mod(t, p);
    let q = t / p;
    if 0 < d < p {
        vstd::arithmetic::div_mod::lemma_fundamental_div_mod_converse(t + d, p, q, d);
    }
    if d == p {
        assert(p * q + p == p * (q + 1)) by (nonlinear_arith);
        vstd::arithmetic::div_mod::lemma_fundamental_div_mod_converse(t + d, p, q + 1, 0);
    }
}

/// A session waits while it rests or has no view of the market, and else does what the
/// limits say: it halts on the safety switch, pauses five minutes on any other limit,
/// pauses a minute where the signal is bearish and the regime high, and trades in every
/// other market. It trades only then, and only trading moves the account.
pub proof fn law_session_does_what_the_limits_say<S: Value>(
    before: LiveSession<S>,
    price: S,
    now: u64,
    after: LiveSession<S>,
    r: LiveStep<S>,
)
    requires
        before.steps_to(price, now, after, r),
        before.state is Some,
        before.grid is Some,
    ensures
        ({
            let v = before.risk@.verdict_at(before.paper.value_at(price));
            let state = before.state->0;
            let resting = before.paused_until matches Some(until) && now < until;
            &&& resting ==> r is Waiting && after == before
            &&& !resting && v is Safety ==> r is Halted && after.paper == before.paper
            &&& !resting && (v is StopLoss || v is MaxDrawdown || v is TakeProfit) ==> {
                &&& r matches LiveStep::Paused { until, .. } && until == now + 300_000
                    && after.paused_until == Some(until)
                &&& after.paper == before.paper
            }
            &&& !resting && v is Clear && state.trend_signal is Bearish && state.regime is High
                ==> {
                &&& r matches LiveStep::Paused { until, .. } && until == now + 60_000
                    && after.paused_until == Some(until)
                &&& after.paper == before.paper
            }
            &&& !resting && v is Clear && !(state.trend_signal is Bearish) ==> r is Traded
            &&& !resting && v is Clear && !(state.regime is High) ==> r is Traded
            &&& r is Traded ==> !resting && v is Clear && after.paused_until is None
            &&& !resting && !(r is Traded) ==> after.risk@ == before.risk@.seen(
                before.paper.value_at(price),
            )
        }),
{
}

/// Without a view of the market a session waits, and changes nothing but that an old
/// pause is over.
pub proof fn law_session_without_a_view_waits<S: Value>(
    before: LiveSession<S>,
    price: S,
    now: u64,
    after: LiveSession<S>,
    r: LiveStep<S>,
)
    requires
        before.steps_to(price, now, after, r),
        before.state is None || before.grid is None,
    ensures
        r is Waiting,
        after.paper == before.paper,
        after.risk == before.risk,
        after.cfg == before.cfg,
        after.state == before.state,
        after.grid == before.grid,
        after.tick == before.tick,
{
}

/// Without rounding, a tick that trades places its trades as orders exactly in live mode
/// and hands them to the followers exactly where those are served; its status line is
/// due once in the configured seconds, ten ticks to each, and tells the value, the profit
/// on the capital and the drawdown from the peak.
pub proof fn law_traded_tick_reports_itself(
    before: LiveSession<real>,
    after: LiveSession<real>,
    report: TickReport<real>,
    price: real,
    state: MarketState<real>,
    levels: Seq<GridLevel<real>>,
)
    requires
        before.trades_to(after, report, price, state, levels),
        can_run(before.cfg),
        before.cfg.total_capital > 0 as real,
    ensures
        report.place_orders <==> before.cfg.mode@ == "live"@,
        report.broadcast <==> before.cfg.copy_trade_enabled,
        report.status is Some <==> before.tick as int % (before.cfg.status_secs * 10) == 0,
        report.status matches Some(line) ==> {
            let value = before.paper.capital + before.paper.base_held * price;
            &&& line.price == price
            &&& line.value == value
            &&& line.pnl_pct * before.cfg.total_capital == 100 as real * (value
                - before.cfg.total_capital)
            &&& line.trades == after.paper.counter
            &&& line.buys + line.sells == after.paper.trades@.len()
            &&& line.buys == count_side(after.paper.trades@, Side::Buy)
        },
        after.paper.counter == before.paper.counter + report.records@.len(),
        before.tick % 14_400 == 0 ==> after.risk@.snapshot == before.paper.capital
            + before.paper.base_held * price,
        before.tick % 14_400 != 0 ==> after.risk@.snapshot == before.risk@.snapshot
            && after.risk@.returns == before.risk@.returns,
{
    let start = before.paper.book_for(levels);
    let t = before.terms(price, state);
    crate::paper::law_fills_account_for_book(start, levels, t);
    let value = before.paper.capital + before.paper.base_held * price;
    let cap = before.cfg.total_capital;
    let q = (value - cap) / cap;
    lemma_quot_undone(value - cap, cap);
    assert((q * 100 as real) * cap == 100 as real * (value - cap)) by (nonlinear_arith)
        requires
            q * cap == value - cap,
    ;
    let trades = after.paper.trades@;
    if trades.len() > 0 {
        crate::account_laws::law_sides_are_counted(trades, trades[0]);
    } else {
        assert(count_side(trades, Side::Buy) == 0 && count_side(trades, Side::Sell) == 0);
    }
}

/// A tick that trades does so at its price, for a position by the limits and the capital,
/// with the configured least value and slippage.
pub proof fn law_traded_tick_keeps_its_terms<S: Value>(
    s: LiveSession<S>,
    price: S,
    state: MarketState<S>,
)
    ensures
        ({
            let t = s.terms(price, state);
            &&& t.price == price
            &&& t.state == state
            &&& t.min_notional == s.cfg.min_notional_usdt
            &&& t.base_slip == s.cfg.slippage_pct
            &&& t.pos_size == s.risk@.size_of_position(s.paper.capital, state)
        }),
{
}

// Reports
/// Without rounding, the report tells the value at the last price, the profit on the
/// initial capital, also in percent, the drawdown from the peak, the buys and sells of
/// the history, and of the results those whose target is the best one's.
pub proof fn law_report_tells_the_session(
    r: SessionReport<real>,
    paper: PaperTrader<real>,
    risk: Risk<real>,
    initial: real,
    final_price: real,
    opt: Seq<OptResult<real>>,
    i: int,
)
    requires
        tells_session(r, paper, risk, initial, final_price, opt),
        initial > 0 as real,
        risk.peak > 0 as real,
    ensures
        r.value == paper.capital + paper.base_held * final_price,
        r.pnl + initial == r.value,
        r.pnl_pct * initial == 100 as real * (r.value - initial),
        r.drawdown_pct * risk.peak == 100 as real * (risk.peak - r.value),
        r.peak == risk.peak,
        r.total_trades == paper.counter,
        r.buys + r.sells == paper.trades@.len(),
        r.buys == count_side(paper.trades@, Side::Buy),
        r.volume == total(values_of(paper.trades@)),
        r.slippage == paper.total_slip,
        r.best@.len() == opt.len(),
        0 <= i < opt.len() ==> (r.best@[i] <==> opt[i].profit_target_pct == opt[best_of(
            opt,
        )].profit_target_pct),
{
    lemma_quot_undone(r.pnl, initial);
    let q = r.pnl / initial;
    assert((q * 100 as real) * initial == 100 as real * r.pnl) by (nonlinear_arith)
        requires
            q * initial == r.pnl,
    ;
    crate::limit_laws::law_drawdown_is_the_loss_on_the_peak(risk.peak, r.value);
    let trades = paper.trades@;
    if trades.len() > 0 {
        crate::account_laws::law_sides_are_counted(trades, trades[0]);
    } else {
        assert(count_side(trades, Side::Buy) == 0 && count_side(trades, Side::Sell) == 0);
    }
}

/// A tick begins by being counted; the market is looked at exactly where the ticks before
/// fill whole rebuild periods, each look is counted, and nothing else changes.
pub proof fn law_ticks_and_looks_are_counted<S: Value>(
    before: LiveSession<S>,
    after: LiveSession<S>,
    due: bool,
)
    requires
        before.begins(after, due),
        before.cfg.grid_rebuild_ticks > 0,
    ensures
        after.tick == before.tick + 1,
        due <==> before.tick % before.cfg.grid_rebuild_ticks == 0,
        before.tick == 0 ==> due,
        due ==> after.cycle == before.cycle + 1,
        !due ==> after.cycle == before.cycle,
        after.paper == before.paper && after.risk == before.risk && after.cfg == before.cfg,
        after.state == before.state && after.grid == before.grid,
        after.paused_until == before.paused_until,
{
    lemma_small_mod(0, before.cfg.grid_rebuild_ticks as nat);
}

/// A view of the market is taken up with a grid of the configured number of levels around
/// its price, and nothing else changes.
pub proof fn law_view_brings_its_grid<S: Value>(
    before: LiveSession<S>,
    after: LiveSession<S>,
    state: MarketState<S>,
)
    requires
        before.views(after, state),
    ensures
        after.state == Some(state),
        after.grid matches Some(g) && g.build_price == state.price && g.build_atr == state.atr
            && g.grid_levels == before.cfg.grid_levels && g.levels@ == grid_of(
            state,
            before.cfg.grid_levels,
        ).levels,
        after.paper == before.paper && after.risk == before.risk && after.cfg == before.cfg,
        after.tick == before.tick && after.cycle == before.cycle,
        after.paused_until == before.paused_until,
{
}

/// After a failed look the session waits for the configured seconds, twice as long with
/// every further failure, and gives up after the configured number of looks.
pub proof fn law_failed_looks_wait_twice_as_long<S: Value>(
    s: LiveSession<S>,
    attempt: nat,
    failures: u32,
)
    ensures
        s.wait_for(0) == s.cfg.retry_base_sec,
        s.wait_for(attempt + 1) == 2 * s.wait_for(attempt),
        s.looks_again(failures) <==> failures + 1 <= s.cfg.max_retries,
{
    lemma2_to64();
    lemma_pow2_unfold(attempt + 1);
    let (b, p) = (s.cfg.retry_base_sec as int, pow2(attempt) as int);
    assert(b * (2 * p) == 2 * (b * p)) by (nonlinear_arith);
}

/// A new configuration is taken up exactly where it has no fault and a session can run
/// with it; account, grid and view stay, the history keeps its newest trades, and one
/// that is left aside changes nothing.
pub proof fn law_faulty_configuration_is_left_aside<S: Value>(
    before: LiveSession<S>,
    after: LiveSession<S>,
    cfg: BotConfig<S>,
    key: Seq<char>,
    secret: Seq<char>,
    taken: bool,
)
    requires
        before.takes_configuration(after, cfg, key, secret, taken),
    ensures
        taken <==> {
            let next = taken_up(before.cfg, cfg);
            &&& next.faults(key, secret).len() == 0
            &&& cfg.grid_rebuild_ticks > 0 && cfg.max_trade_history > 0
            &&& 0 < cfg.status_secs <= 1_844_674_407_370_955_161
        },
        !taken ==> after == before,
        taken ==> after.cfg == taken_up(before.cfg, cfg) && after.risk@ == before.risk@.under(
            after.cfg,
        ),
        taken && before.paper.trades@.len() <= cfg.max_trade_history ==> after.paper.trades@
            == before.paper.trades@,
        taken && before.paper.trades@.len() > cfg.max_trade_history ==> after.paper.trades@
            == before.paper.trades@.skip(before.paper.trades@.len() - cfg.max_trade_history),
        after.paper.book() == before.paper.book(),
        after.paper.symbol == before.paper.symbol && after.paper.grid_id == before.paper.grid_id,
        after.state == before.state && after.grid == before.grid,
        after.tick == before.tick && after.cycle == before.cycle,
        after.paused_until == before.paused_until,
{
}

/// A session begins before its first tick, without a view of the market, with the
/// configured capital and nothing traded.
pub proof fn law_session_begins_with_its_capital(s: LiveSession<real>, cfg: BotConfig<real>)
    requires
        s.begins_under(cfg),
    ensures
        s.tick == 0 && s.cycle == 0 && s.paused_until is None,
        s.state is None && s.grid is None,
        s.cfg == cfg,
        s.paper.capital == cfg.total_capital && s.paper.base_held == 0 as real,
        s.paper.counter == 0 && s.paper.trades@.len() == 0,
        s.paper.symbol@ == cfg.symbol@ && s.paper.max_history == cfg.max_trade_history,
        s.risk@.initial == cfg.total_capital && s.risk@.peak == cfg.total_capital,
        s.risk@.profit_target == cfg.profit_target_pct && s.risk@.max_loss == cfg.max_loss_pct,
{
}

/// Where no configuration can be read the bot trades no real money: the default is sound,
/// can run, and is not the live mode; its figures are small ones.
pub proof fn law_default_configuration_is_sound(
    cfg: BotConfig<real>,
    key: Seq<char>,
    secret: Seq<char>,
)
    requires
        cfg.is_default(),
    ensures
        cfg.is_sound(key, secret),
        can_run(cfg),
        cfg.mode@ == seq!['p', 'a', 'p', 'e', 'r'],
        cfg.symbol@ == seq!['B', 'N', 'B', 'U', 'S', 'D', 'T'],
        cfg.master_id@.len() == 0,
        !cfg.copy_trade_enabled && cfg.copy_trade_port == 8080,
        cfg.total_capital == 20 as real && cfg.grid_levels == 8,
        cfg.max_loss_pct == 5 as real && cfg.max_drawdown_pct == 8 as real,
        cfg.profit_target_pct == 1 as real && cfg.min_notional_usdt == 5 as real,
        100 as real * cfg.max_single_trade_pct == 9 as real,
        10_000 as real * cfg.slippage_pct == 5 as real,
        cfg.grid_rebuild_ticks == 240 && cfg.atr_rebuild_threshold_pct == 15 as real,
        cfg.atr_outlier_cap_pct == 5 as real && cfg.fee_pct == 10 as real,
        cfg.rate_limit_per_sec == 10 && cfg.max_retries == 5 && cfg.retry_base_sec == 2,
        cfg.latency_buf_size == 100 && cfg.max_trade_history == 10_000,
        cfg.heartbeat_secs == 30 && cfg.status_secs == 60,
{
    lemma_ratio_undone(9, 100);
    lemma_ratio_undone(5, 10_000);
    lemma_ratio_undone(1, 100);
    reveal_strlit("paper");
    reveal_strlit("live");
    reveal_strlit("BNBUSDT");
    reveal_strlit("");
    assert("paper"@ =~= seq!['p', 'a', 'p', 'e', 'r']);
    assert("BNBUSDT"@ =~= seq!['B', 'N', 'B', 'U', 'S', 'D', 'T']);
    assert("paper"@.len() != "live"@.len());
}

/// The configuration is the one that was read, and a sound one that places no real orders
/// where none was.
pub proof fn law_read_configuration_counts(
    cfg: BotConfig<real>,
    read: Option<BotConfig<real>>,
    key: Seq<char>,
    secret: Seq<char>,
)
    requires
        cfg.is_read_from(read),
    ensures
        read is Some ==> cfg == read->0,
        read is None ==> cfg.is_sound(key, secret) && cfg.mode@ != "live"@,
{
    if read is None {
        law_default_configuration_is_sound(cfg, key, secret);
        reveal_strlit("live");
        assert("live"@.len() == 4);
    }
}

} // verus!
