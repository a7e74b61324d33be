use spd_grid_bot::backtest::{
    backtest_rows, backtest_text, closing_prices, load_candles, run_backtest,
};
use spd_grid_bot::config::BotConfig;
use spd_grid_bot::grid::DynamicGrid;
use spd_grid_bot::live::{is_runnable, LiveSession, LiveStep};
use spd_grid_bot::models::{
    Candle, MarketState, OptResult, Regime, Side, TradingStatus, Trend, TrendSignal, WickProfile,
};
use spd_grid_bot::number::{Number, Value};
use spd_grid_bot::optimizer::{auto_optimize, backtest_kernel, best_run, sharpe};
use spd_grid_bot::paper::{apply_slippage, PaperTrader};
use spd_grid_bot::report::session_report;
use spd_grid_bot::risk::{BacktestStatus, RiskManager};

#[derive(Clone, Copy, Debug, PartialEq)]
struct F64(f64);

impl Value for F64 {}

impl Number for F64 {
    fn plus(self, other: Self) -> Self {
        F64(self.0 + other.0)
    }
    fn minus(self, other: Self) -> Self {
        F64(self.0 - other.0)
    }
    fn times(self, other: Self) -> Self {
        F64(self.0 * other.0)
    }
    fn over(self, other: Self) -> Self {
        F64(self.0 / other.0)
    }
    fn negate(self) -> Self {
        F64(-self.0)
    }
    fn abs(self) -> Self {
        F64(self.0.abs())
    }
    fn round(self) -> Self {
        F64(self.0.round())
    }
    fn fract(self) -> Self {
        F64(self.0.fract())
    }
    fn sqrt(self) -> Self {
        F64(self.0.sqrt())
    }
    fn lt(self, other: Self) -> bool {
        self.0 < other.0
    }
    fn le(self, other: Self) -> bool {
        self.0 <= other.0
    }
    fn from_u64(n: u64) -> Self {
        F64(n as f64)
    }
    fn to_u64(self) -> u64 {
        self.0 as u64
    }
    fn infinity() -> Self {
        F64(f64::INFINITY)
    }
    fn neg_infinity() -> Self {
        F64(f64::NEG_INFINITY)
    }
    fn epsilon() -> Self {
        F64(f64::EPSILON)
    }
    fn trillionth() -> Self {
        F64(1e-12)
    }
    fn billionth() -> Self {
        F64(1e-9)
    }
    fn to_text(self, places: u8) -> String {
        format!("{:.*}", places as usize, self.0)
    }
    fn parse(text: &str) -> Option<Self> {
        text.parse::<f64>().ok().map(F64)
    }
}

fn state() -> MarketState<F64> {
    MarketState {
        price: F64(600.0),
        atr: F64(6.0),
        rsi: F64(50.0),
        ema9: F64(600.0),
        ema20: F64(600.0),
        ema21: F64(600.0),
        ema50: F64(600.0),
        trend: Trend::Neutral,
        trend_signal: TrendSignal::Caution,
        regime: Regime::Medium,
        spread_bps: F64(5.0),
        wick_profile: WickProfile { avg_wick_ratio: F64(0.0), long_wick_count: 0 },
    }
}

fn config() -> BotConfig<F64> {
    let mut cfg = BotConfig::<F64>::default();
    cfg.total_capital = F64(1000.0);
    cfg
}

fn candle(open: f64, high: f64, low: f64, close: f64) -> Candle<F64> {
    Candle { open: F64(open), high: F64(high), low: F64(low), close: F64(close) }
}

fn series(n: usize, amp: f64) -> Vec<Candle<F64>> {
    let mut out = Vec::new();
    let mut p = 600.0_f64;
    for i in 0..n {
        let d = (((i * 37) % 11) as f64 - 5.0) * amp;
        let c = p + d;
        let high = p.max(c) + ((i * 13) % 5) as f64 * 0.3;
        let low = p.min(c) - ((i * 7) % 4) as f64 * 0.4;
        out.push(candle(p, high, low, c));
        p = c;
    }
    out
}

fn falling(n: usize) -> Vec<Candle<F64>> {
    (0..n)
        .map(|i| {
            let d = i as f64 * 3.0;
            candle(600.0 - d, 601.0 - d, 596.0 - d, 597.0 - d)
        })
        .collect()
}

fn prices(grid: &DynamicGrid<F64>) -> Vec<(Side, f64)> {
    grid.levels.iter().map(|l| (l.side, l.price.0)).collect()
}

fn result(target: f64, sharpe_ratio: f64) -> OptResult<F64> {
    OptResult {
        profit_target_pct: F64(target),
        final_value: F64(0.0),
        net_pnl_pct: F64(0.0),
        total_trades: 0,
        max_drawdown_pct: F64(0.0),
        sharpe_ratio: F64(sharpe_ratio),
        calmar_ratio: F64(0.0),
    }
}

// The grid

#[test]
fn grid_levels_of_a_calm_market() {
    let g = DynamicGrid::build(&state(), 4);
    assert_eq!(
        prices(&g),
        vec![
            (Side::Buy, 594.6),
            (Side::Buy, 589.2),
            (Side::Sell, 605.4),
            (Side::Sell, 610.8)
        ]
    );
    assert_eq!(g.levels[0].profit_pct, F64(0.9081735620585267));
    assert_eq!(g.levels[0].distance, F64(0.8999999999999962));
    assert_eq!(g.levels[0].atr_dist, F64(0.9));
    assert_eq!(g.levels[3].profit_pct, F64(0.8840864440078586));
    assert_eq!(g.levels[3].atr_dist, F64(1.8));
    assert_eq!(g.build_atr, F64(6.0));
    assert_eq!(g.build_price, F64(600.0));
    assert_eq!(g.grid_levels, 4);
}

#[test]
fn grid_leans_with_the_trend() {
    let mut s = state();
    s.trend_signal = TrendSignal::Bearish;
    s.regime = Regime::High;
    assert_eq!(
        prices(&DynamicGrid::build(&s, 4)),
        vec![
            (Side::Buy, 588.075),
            (Side::Buy, 577.95),
            (Side::Sell, 608.325),
            (Side::Sell, 618.45)
        ]
    );
    s.trend_signal = TrendSignal::Bullish;
    s.regime = Regime::Low;
    let g = DynamicGrid::build(&s, 2);
    assert_eq!(prices(&g), vec![(Side::Buy, 595.32), (Side::Sell, 608.28)]);
    let mut s = state();
    s.trend = Trend::Up;
    let g = DynamicGrid::build(&s, 2);
    assert_eq!(prices(&g), vec![(Side::Buy, 592.2), (Side::Sell, 613.8)]);
    s.trend = Trend::Down;
    let g = DynamicGrid::build(&s, 2);
    assert_eq!(prices(&g), vec![(Side::Buy, 586.2), (Side::Sell, 607.8)]);
}

#[test]
fn buy_levels_without_a_price_are_left_out() {
    let mut s = state();
    s.price = F64(5.0);
    s.regime = Regime::High;
    let g = DynamicGrid::build(&s, 4);
    assert_eq!(prices(&g), vec![(Side::Sell, 12.5), (Side::Sell, 20.0)]);
}

#[test]
fn sides_do_not_cross_and_levels_spread_out() {
    let g = DynamicGrid::build(&state(), 8);
    let buys: Vec<f64> =
        g.levels.iter().filter(|l| l.side == Side::Buy).map(|l| l.price.0).collect();
    let sells: Vec<f64> =
        g.levels.iter().filter(|l| l.side == Side::Sell).map(|l| l.price.0).collect();
    assert_eq!((buys.len(), sells.len()), (4, 4));
    assert!(buys.iter().all(|b| sells.iter().all(|s| b <= s)));
    assert!(buys.windows(2).all(|w| w[1] <= w[0]));
    assert!(sells.windows(2).all(|w| w[0] <= w[1]));
}

#[test]
fn grid_rebuild_reasons() {
    let g = DynamicGrid::build(&state(), 4);
    assert_eq!(g.needs_rebuild(&state(), F64(15.0)), (false, ""));
    let mut s = state();
    s.atr = F64(6.9);
    assert_eq!(g.needs_rebuild(&s, F64(15.0)), (true, "ATR shift"));
    let mut s = state();
    s.price = F64(700.0);
    assert_eq!(g.needs_rebuild(&s, F64(15.0)), (true, "price out of grid"));
    s.price = F64(500.0);
    assert_eq!(g.needs_rebuild(&s, F64(15.0)), (true, "price out of grid"));
    let mut s = state();
    s.atr = F64(4.7);
    assert_eq!(g.needs_rebuild(&s, F64(50.0)), (true, "regime change"));
}

#[test]
fn listing_falls_and_marks_what_is_near() {
    let g = DynamicGrid::build(&state(), 4);
    let mut s = state();
    s.price = F64(605.0);
    let rows = g.print_grid(&s);
    let seen: Vec<(f64, bool)> = rows.iter().map(|r| (r.level.price.0, r.near)).collect();
    assert_eq!(
        seen,
        vec![(610.8, false), (605.4, true), (594.6, false), (589.2, false)]
    );
}

// Slippage and fills

#[test]
fn slippage_of_both_sides() {
    let (p, s) =
        apply_slippage(F64(600.7), &Side::Buy, F64(5.0), F64(500.0), F64(0.0005), F64(2.0));
    assert_eq!((p, s), (F64(601.18056), F64(0.48056)));
    let (p, s) =
        apply_slippage(F64(600.2), &Side::Sell, F64(5.0), F64(5.0), F64(0.0005), F64(1.0));
    assert_eq!((p, s), (F64(600.0475492), F64(0.1524508)));
}

#[test]
fn execution_price_stays_positive() {
    let (p, s) =
        apply_slippage(F64(0.00005), &Side::Sell, F64(30.0), F64(5.0), F64(0.0005), F64(1.0));
    assert_eq!((p, s), (F64(0.0001), F64(7.52e-08)));
}

#[test]
fn fills_follow_the_price() {
    let s = state();
    let g = DynamicGrid::build(&s, 4);
    let mut p = PaperTrader::new(F64(100.0), 3, "BNBUSDT");
    let least = F64(5.0);
    let slip = F64(0.0005);
    let r = p.simulate_fills(&g, F64(590.0), F64(20.0), &s, least, slip);
    assert_eq!(r.len(), 1);
    assert_eq!(r[0].side, Side::Buy);
    assert_eq!(r[0].symbol, "BNBUSDT");
    assert_eq!(r[0].price, F64(594.6));
    assert_eq!(r[0].exec_price, F64(594.7557852));
    assert_eq!(r[0].qty, F64(0.03362724751517054));
    assert_eq!(r[0].value_usdt, F64(20.0));
    assert_eq!(r[0].slippage, F64(0.1557852));
    assert_eq!(r[0].slip_mult, F64(1.0));
    assert_eq!(r[0].trend_signal, "🟡 CAUTION");
    assert_eq!(r[0].binance_oid, None);
    assert_eq!((p.capital, p.base_held), (F64(80.0), F64(0.03362724751517054)));

    // A filled level is not due again.
    assert!(p.simulate_fills(&g, F64(590.0), F64(20.0), &s, least, slip).is_empty());

    let r = p.simulate_fills(&g, F64(588.0), F64(20.0), &s, least, slip);
    assert_eq!(r.len(), 1);
    assert_eq!(r[0].exec_price, F64(589.3520136000001));

    let r = p.simulate_fills(&g, F64(611.0), F64(20.0), &s, least, slip);
    assert_eq!(r.len(), 2);
    assert_eq!(r[0].side, Side::Sell);
    assert_eq!(r[0].value_usdt, F64(19.99484));
    assert_eq!(r[1].qty, F64(0.03274394237066143));
    assert_eq!(p.capital, F64(99.9896));
    assert_eq!(p.base_held, F64(0.0017828718125130968));
    assert_eq!(p.grid_id, 4236212193832992);
    assert_eq!(p.total_value(F64(611.0)), F64(101.0789346774455));

    // The history holds the three newest trades.
    assert_eq!(p.trades.len(), 3);
    assert_eq!(p.trades[0].price, F64(589.2));
    assert_eq!(p.trades[2].price, F64(610.8));
    assert_eq!(p.stats(), (4, 1, 2, F64(59.989599999999996), F64(0.6240216000000001)));
    assert_eq!(p.pnl_pct(F64(611.0)), F64(-16.510978722305428));
}

#[test]
fn trades_get_identifiers_and_times() {
    let s = state();
    let g = DynamicGrid::build(&s, 4);
    let mut p = PaperTrader::new(F64(100.0), 3, "BNBUSDT");
    let r = p.simulate_fills(&g, F64(588.0), F64(20.0), &s, F64(5.0), F64(0.0005));
    assert_eq!(r.len(), 2);
    assert_ne!(r[0].id, r[1].id);
    for t in &r {
        let id: Vec<char> = t.id.chars().collect();
        assert_eq!(id.len(), 36);
        assert_eq!((id[8], id[13], id[18], id[23]), ('-', '-', '-', '-'));
        assert_eq!(id[14], '4');
        let time: Vec<char> = t.time.chars().collect();
        assert_eq!(time.len(), 19);
        assert_eq!((time[4], time[7], time[10], time[13], time[16]), ('-', '-', 'T', ':', ':'));
    }
}

#[test]
fn fills_are_covered_and_reach_the_least_value() {
    let s = state();
    let g = DynamicGrid::build(&s, 4);
    let mut poor = PaperTrader::new(F64(4.0), 3, "X");
    assert!(poor.simulate_fills(&g, F64(500.0), F64(20.0), &s, F64(5.0), F64(0.0)).is_empty());
    let mut p = PaperTrader::new(F64(25.0), 9, "X");
    let mut level = state();
    level.ema50 = F64(500.0);
    let r = p.simulate_fills(&g, F64(500.0), F64(20.0), &level, F64(5.0), F64(0.0));
    assert_eq!(r.iter().map(|t| t.value_usdt.0).collect::<Vec<f64>>(), vec![20.0, 5.0]);
    assert_eq!(p.capital, F64(0.0));
}

#[test]
fn account_stays_solvent() {
    let s = state();
    let g = DynamicGrid::build(&s, 8);
    let mut p = PaperTrader::new(F64(60.0), 100, "X");
    for price in [597.0, 590.0, 583.0, 604.0, 612.0, 584.0, 620.0, 583.0] {
        p.simulate_fills(&g, F64(price), F64(25.0), &s, F64(1.0), F64(0.01));
        assert!(p.capital.0 >= 0.0 && p.base_held.0 >= 0.0);
    }
    assert!(p.counter > 4);
}

#[test]
fn nothing_is_bought_far_under_the_long_average() {
    let s = state();
    let g = DynamicGrid::build(&s, 4);
    let mut p = PaperTrader::new(F64(100.0), 3, "X");
    assert!(p.simulate_fills(&g, F64(581.0), F64(20.0), &s, F64(5.0), F64(0.0)).is_empty());
    assert_eq!(
        p.simulate_fills(&g, F64(582.0), F64(20.0), &s, F64(5.0), F64(0.0)).len(),
        2
    );
}

#[test]
fn another_grid_frees_the_levels() {
    let s = state();
    let g = DynamicGrid::build(&s, 4);
    let mut p = PaperTrader::new(F64(100.0), 3, "X");
    p.simulate_fills(&g, F64(590.0), F64(20.0), &s, F64(5.0), F64(0.0));
    assert!(p.filled_buys.contains(&PaperTrader::key(F64(594.6))));
    p.reset_for_grid(&g);
    assert_eq!(p.filled_buys.len(), 1);
    p.reset_for_grid(&DynamicGrid::build(&s, 6));
    assert_eq!(p.filled_buys.len(), 0);
    assert_eq!(PaperTrader::key(F64(594.6)), 5946000);
}

// Limits

#[test]
fn position_sizes() {
    let r = RiskManager::new(&config());
    assert_eq!(r.position_size(F64(1000.0), &state()), F64(57.375));
    let mut s = state();
    s.rsi = F64(80.0);
    s.regime = Regime::High;
    s.trend_signal = TrendSignal::Bearish;
    assert_eq!(r.position_size(F64(1000.0), &s), F64(18.9));
    s.rsi = F64(20.0);
    s.regime = Regime::Low;
    s.trend_signal = TrendSignal::Bullish;
    assert_eq!(r.position_size(F64(1000.0), &s), F64(64.8));
}

#[test]
fn limits_of_a_live_session() {
    let live = |value: f64, s: &MarketState<F64>| {
        RiskManager::new(&config()).evaluate_live(F64(value), s, 1_000)
    };
    let (st, reason) = live(1000.0, &state());
    assert!(st.is_active());
    assert_eq!(reason, "");
    let (st, reason) = live(1010.0, &state());
    assert!(matches!(st, TradingStatus::PausedUntil(301_000)));
    assert_eq!(reason, "✅ Take Profit 1.00%");
    let (st, reason) = live(949.0, &state());
    assert!(matches!(st, TradingStatus::PausedUntil(301_000)));
    assert_eq!(reason, "🛑 Stop Loss 5.10%");
    let (st, reason) = live(880.0, &state());
    assert!(st.is_tripped());
    assert_eq!(reason, "🔴 SAFETY SWITCH: DD 12.00% ≥ 12.0%");
    let mut storm = state();
    storm.trend_signal = TrendSignal::Bearish;
    storm.regime = Regime::High;
    let (st, reason) = live(1000.0, &storm);
    assert!(matches!(st, TradingStatus::PausedUntil(61_000)));
    assert_eq!(reason, "⚠️ Bearish + High Vol");
    let mut r = RiskManager::new(&config()).with_profit_target(F64(50.0));
    r.evaluate_live(F64(1100.0), &state(), 0);
    let (st, reason) = r.evaluate_live(F64(1000.0), &state(), 1_000);
    assert!(matches!(st, TradingStatus::PausedUntil(301_000)));
    assert_eq!(reason, "🛑 Max Drawdown 9.09%");
    assert_eq!(r.peak_capital, F64(1100.0));
    assert_eq!(r.drawdown_pct(F64(1000.0)), F64(9.090909090909092));
}

#[test]
fn limits_of_a_backtest() {
    let test = |value: f64| RiskManager::new(&config()).evaluate_backtest(F64(value), 7, 40);
    let (st, reason) = test(1009.99);
    assert!(st.is_active() && !st.is_stopped());
    assert_eq!(reason, "");
    let (st, reason) = test(1010.0);
    assert!(matches!(st, BacktestStatus::PausedUntilTick(47)));
    assert_eq!(reason, "✅ Take Profit 1.00%");
    let (st, reason) = test(925.0);
    assert!(matches!(st, BacktestStatus::PausedUntilTick(47)));
    assert_eq!(reason, "🛑 Stop Loss 7.50%");
    let (st, reason) = test(870.0);
    assert!(st.is_stopped());
    assert_eq!(reason, "🔴 SAFETY SWITCH: DD 13.00%");
}

#[test]
fn peak_never_falls_and_days_are_noted() {
    let mut r = RiskManager::new(&config());
    r.update_peak(F64(1200.0));
    r.update_peak(F64(900.0));
    assert_eq!(r.peak_capital, F64(1200.0));
    r.record_daily_return(F64(1100.0));
    r.record_daily_return(F64(1045.0));
    assert_eq!(r.daily_returns, vec![F64(0.1), F64(-0.05)]);
    r.record_daily_return(F64(0.0));
    r.record_daily_return(F64(5.0));
    assert_eq!(r.daily_returns.len(), 3);
}

#[test]
fn limits_can_change_under_way() {
    let mut r = RiskManager::new(&config());
    r.update_peak(F64(1200.0));
    let mut cfg = config();
    cfg.max_drawdown_pct = F64(20.0);
    cfg.total_capital = F64(5.0);
    r.reconfigure(&cfg);
    assert_eq!(r.max_drawdown_pct, F64(20.0));
    assert_eq!(r.safety_dd_pct, F64(30.0));
    assert_eq!(r.peak_capital, F64(1200.0));
    assert_eq!(r.initial_capital, F64(1000.0));
}

// The optimizer

#[test]
fn fresh_grids_need_no_rebuild() {
    for signal in [TrendSignal::Bullish, TrendSignal::Caution, TrendSignal::Bearish] {
        for trend in [Trend::Up, Trend::Down, Trend::Neutral] {
            for n in [2, 8, 20] {
                let mut s = state();
                s.trend_signal = signal;
                s.trend = trend;
                let g = DynamicGrid::build(&s, n);
                assert_eq!(g.needs_rebuild(&s, F64(0.5)), (false, ""));
            }
        }
    }
}

#[test]
fn grids_scale_with_the_market() {
    let small = DynamicGrid::build(&state(), 8);
    let mut s = state();
    s.price = F64(60_000.0);
    s.atr = F64(600.0);
    let large = DynamicGrid::build(&s, 8);
    assert_eq!(small.levels.len(), large.levels.len());
    for (a, b) in small.levels.iter().zip(large.levels.iter()) {
        assert_eq!(a.side, b.side);
        assert!((b.price.0 - 100.0 * a.price.0).abs() <= 0.0001 * 101.0);
        assert!((b.atr_dist.0 - a.atr_dist.0).abs() < 1e-12);
    }
}

#[test]
fn levels_fill_once_on_one_grid() {
    let s = state();
    let g = DynamicGrid::build(&s, 8);
    let mut p = PaperTrader::new(F64(1000.0), 100, "X");
    let mut seen: Vec<(Side, u64)> = Vec::new();
    for price in [597.0, 590.0, 583.0, 604.0, 612.0, 584.0, 620.0, 583.0, 630.0] {
        for r in p.simulate_fills(&g, F64(price), F64(25.0), &s, F64(1.0), F64(0.0005)) {
            assert!(r.side == Side::Sell || r.value_usdt.0 <= 25.0);
            seen.push((r.side, PaperTrader::key(r.price)));
        }
    }
    for i in 0..seen.len() {
        assert!(!seen[i + 1..].contains(&seen[i]));
    }
    assert!(seen.len() > 4 && seen.len() <= g.levels.len());
}

#[test]
fn slippage_has_its_closed_form() {
    let price = 600.7;
    let slip = |spread: f64, wick: f64| {
        apply_slippage(F64(price), &Side::Buy, F64(spread), F64(500.0), F64(0.0005), F64(wick))
    };
    let impact = price * 0.0005 * 0.5;
    let (exec, off) = slip(5.0, 2.0);
    let rest = (off.0 - (price * 5.0 / 20_000.0 + impact * 2.0)).abs();
    assert!((rest - 0.2 * impact).abs() < 1e-9);
    assert!((exec.0 - price - off.0).abs() < 1e-9);
    assert!(slip(6.0, 2.0).1 .0 >= off.0 && slip(5.0, 3.0).1 .0 >= off.0);
}

#[test]
fn sharpe_ratios() {
    let rets = [F64(0.01), F64(0.02), F64(-0.005), F64(0.03)];
    assert_eq!(sharpe(&rets), F64(14.619472355821081));
    assert_eq!(sharpe(&[F64(0.01)]), F64(0.0));
    assert_eq!(sharpe(&[F64(0.01), F64(0.01)]), F64(0.0));
    assert!((sharpe(&[F64(1.0), F64(3.0)]).0 - 22.449944).abs() < 1e-5);
}

#[test]
fn optimizer_sweeps_five_targets() {
    let candles = series(60, 0.8);
    let prices = closing_prices(&candles);
    let mut cfg = config();
    cfg.grid_rebuild_ticks = 20;
    let r = auto_optimize(&candles, &prices, &cfg);
    let seen: Vec<(f64, f64, f64, usize)> = r
        .iter()
        .map(|o| (o.profit_target_pct.0, o.final_value.0, o.max_drawdown_pct.0, o.total_trades))
        .collect();
    assert_eq!(
        seen,
        vec![
            (0.5, 1007.3629642879202, 0.0, 16),
            (1.0, 1011.0315213956964, 0.0, 24),
            (2.0, 1022.0373723761553, 0.006143558964734684, 48),
            (5.0, 1051.5298200693871, 0.018261716266380533, 104),
            (10.0, 1102.144331167769, 0.018261716266380533, 200),
        ]
    );
    assert_eq!(r[2].net_pnl_pct, F64(2.2037372376155306));
    assert_eq!(r[2].calmar_ratio, F64(358.70694010840367));
    assert_eq!(r[0].calmar_ratio, F64(0.0));
    assert_eq!(r[4].sharpe_ratio, F64(0.0));
}

#[test]
fn kernel_without_prices_keeps_the_capital() {
    let run = backtest_kernel::<F64>(&[], &[], &config(), F64(1.0));
    assert_eq!(run.final_val, F64(1000.0));
    assert_eq!(run.max_dd, F64(0.0));
    assert_eq!(run.total_trades, 0);
    assert!(run.daily_rets.is_empty());
}

#[test]
fn best_result_has_the_highest_ratio() {
    assert_eq!(best_run::<F64>(&[]), None);
    let r = [result(0.5, 1.0), result(1.0, 3.0), result(2.0, 3.0), result(5.0, 2.0)];
    assert_eq!(best_run(&r), Some(2));
}

// The backtest

fn row(cells: &[&str]) -> Vec<Option<String>> {
    let mut r: Vec<Option<String>> = vec![None];
    for c in cells {
        r.push(Some(c.to_string()));
    }
    r
}

#[test]
fn rows_become_candles() {
    let rows = vec![
        row(&["1", "4", "0.5", "3"]),
        row(&["1", "4", "5", "3"]),
        row(&["1", "4", "0.5", "0"]),
        row(&["x", "4", "0.5", "3"]),
        row(&["1", "4", "0.5"]),
        vec![None, None, None, None, None],
        row(&["2", "2", "2", "2", "junk"]),
    ];
    let c = load_candles::<F64>(&rows);
    assert_eq!(c.len(), 2);
    assert_eq!(c[0].open, F64(1.0));
    assert_eq!(c[0].high, F64(4.0));
    assert_eq!(c[0].low, F64(0.5));
    assert_eq!(c[0].close, F64(3.0));
    assert_eq!(closing_prices(&c), vec![F64(3.0), F64(2.0)]);
}

#[test]
fn backtest_over_a_wavering_market() {
    let candles = series(60, 0.8);
    let mut cfg = config();
    cfg.grid_rebuild_ticks = 20;
    let run = run_backtest(&candles, &cfg);
    assert_eq!(run.paper.capital, F64(631.8765718937947));
    assert_eq!(run.paper.base_held, F64(0.6170299659770915));
    assert_eq!(run.paper.counter, 16);
    assert_eq!(run.paper.total_slip, F64(3.1915837939579847));
    assert_eq!(run.risk.peak_capital, F64(1001.0878027076619));
    assert!(run.status.is_active());
    assert_eq!(run.last_rebuild, 59);
    assert!(run.notes.is_empty());
}

#[test]
fn backtest_notes_daily_returns() {
    let candles = series(3000, 0.9);
    let mut cfg = config();
    cfg.grid_rebuild_ticks = 20;
    cfg.profit_target_pct = F64(50.0);
    let run = run_backtest(&candles, &cfg);
    assert_eq!(run.risk.daily_returns, vec![F64(0.00018902986709008475), F64(0.0)]);
    assert_eq!(run.paper.counter, 3);
}

#[test]
fn backtest_pauses_and_stops() {
    let candles = falling(60);
    let mut cfg = config();
    cfg.grid_rebuild_ticks = 10;
    cfg.max_single_trade_pct = F64(0.9);
    cfg.profit_target_pct = F64(50.0);
    cfg.atr_rebuild_threshold_pct = F64(1000.0);
    let run = run_backtest(&candles, &cfg);
    assert_eq!(run.paper.counter, 2);
    assert_eq!(run.paper.base_held, F64(1.677357864586599));
    assert!(run.status.is_stopped());
    assert_eq!(
        run.notes,
        vec![
            (12, "🛑 Stop Loss 5.40%".to_string()),
            (32, "🔴 SAFETY SWITCH: DD 15.46%".to_string())
        ]
    );
    cfg.max_drawdown_pct = F64(4.0);
    let run = run_backtest(&candles, &cfg);
    assert_eq!(
        run.notes,
        vec![
            (10, "🛑 Max Drawdown 4.39%".to_string()),
            (30, "🔴 SAFETY SWITCH: DD 14.45%".to_string())
        ]
    );
    // Nothing follows a stop.
    let longer = run_backtest(&falling(90), &cfg);
    assert_eq!(longer.notes, run.notes);
    assert_eq!(longer.paper.base_held, run.paper.base_held);
}

#[test]
fn backtest_of_rows() {
    let cfg = config();
    assert!(backtest_rows::<F64>(&[row(&["x"])], &cfg).is_none());
    let rows = vec![row(&["600", "601", "599", "600"]), row(&["600", "602", "600", "601"])];
    let b = backtest_rows::<F64>(&rows, &cfg).unwrap();
    assert_eq!(b.candles.len(), 2);
    assert_eq!(b.optimizer.len(), 5);
    assert_eq!(b.run.paper.symbol, "BNBUSDT");
    assert_eq!(b.run.paper.counter, 0);
}

#[test]
fn backtest_of_a_text() {
    let cfg = config();
    let text = "[[1, \"600\", \"601\", \"599\", \"600\", \"9\"], [2, \"600\", \"602\", \"600\", \"601\"], \
                [3, 600, \"602\", \"600\", \"601\"], []]";
    let b = backtest_text::<F64>(text, &cfg).unwrap().unwrap();
    assert_eq!(closing_prices(&b.candles), vec![F64(600.0), F64(601.0)]);
    assert_eq!(b.optimizer.len(), 5);
    assert!(backtest_text::<F64>("[]", &cfg).unwrap().is_none());
    assert!(backtest_text::<F64>("[[]]", &cfg).unwrap().is_none());
    for bad in ["", "{}", "[1]", "[[1,]]"] {
        let e = backtest_text::<F64>(bad, &cfg).err().unwrap();
        assert!(e.starts_with("JSON: ") && e.len() > 6);
    }
    let mut wide = config();
    wide.grid_levels = usize::MAX - 1;
    assert_eq!(backtest_text::<F64>(text, &wide).err().unwrap(), "Too many rows");
    let mut rare = config();
    rare.grid_rebuild_ticks = u64::MAX / 2;
    assert_eq!(backtest_text::<F64>(text, &rare).err().unwrap(), "Too many rows");
}

#[test]
fn wick_profile_of_a_tick_looks_at_twenty_candles() {
    // One candle of wicks, then candles without any; the fill comes at the last.
    let mut candles = vec![candle(600.0, 640.0, 560.0, 600.0)];
    for _ in 0..19 {
        candles.push(candle(600.0, 600.0, 600.0, 600.0));
    }
    candles.push(candle(600.0, 600.0, 590.0, 590.0));
    let mut cfg = config();
    cfg.grid_levels = 2;
    cfg.grid_rebuild_ticks = 1000;
    cfg.atr_rebuild_threshold_pct = F64(1e9);
    let run = run_backtest(&candles, &cfg);
    let late = run.paper.trades.iter().find(|t| t.price.0 > 590.0).unwrap();
    assert_eq!(late.slip_mult, F64(1.0));
}

#[test]
fn backtest_notes_its_progress() {
    let candles = vec![candle(600.0, 600.0, 600.0, 600.0); 50_001];
    let mut cfg = config();
    cfg.grid_levels = 2;
    let run = run_backtest(&candles, &cfg);
    assert_eq!(run.progress.len(), 1);
    let p = run.progress[0];
    assert_eq!((p.tick, p.price, p.value, p.trades), (50_000, F64(600.0), F64(1000.0), 0));
}

#[test]
fn report_of_a_session() {
    let candles = series(60, 0.8);
    let mut cfg = config();
    cfg.grid_rebuild_ticks = 20;
    let run = run_backtest(&candles, &cfg);
    let opt = [result(0.5, 1.0), result(1.0, 3.0), result(1.0, 0.0)];
    let last = candles[59].close;
    let r = session_report(&run.paper, &run.risk, F64(1000.0), last, &opt);
    assert_eq!(r.value, F64(998.6391836705778));
    assert_eq!(r.pnl, F64(998.6391836705778 - 1000.0));
    assert_eq!(r.pnl_pct, F64((998.6391836705778 - 1000.0) / 1000.0 * 100.0));
    assert_eq!(r.peak, F64(1001.0878027076619));
    assert_eq!(
        r.drawdown_pct,
        F64((1001.0878027076619 - 998.6391836705778) / 1001.0878027076619 * 100.0)
    );
    assert_eq!(r.total_trades, 16);
    assert_eq!(r.buys + r.sells, 16);
    assert_eq!(r.slippage, F64(3.1915837939579847));
    assert_eq!(r.best, vec![false, true, true]);
    let none = session_report(&run.paper, &run.risk, F64(1000.0), last, &[]);
    assert!(none.best.is_empty());
}

// The live session

fn session(mode: &str) -> LiveSession<F64> {
    let mut cfg = config();
    cfg.mode = mode.to_string();
    cfg.grid_levels = 4;
    cfg.status_secs = 1;
    cfg.profit_target_pct = F64(50.0);
    LiveSession::new(cfg)
}

#[test]
fn market_is_looked_at_once_per_cycle() {
    let mut s = session("paper");
    s.cfg.grid_rebuild_ticks = 3;
    let due: Vec<bool> = (0..7).map(|_| s.begin_tick()).collect();
    assert_eq!(due, vec![true, false, false, true, false, false, true]);
    assert_eq!((s.tick, s.cycle), (7, 3));
    let mut every = session("paper");
    every.cfg.grid_rebuild_ticks = 1;
    assert!((0..4).all(|_| every.begin_tick()));
    assert_eq!(every.cycle, 4);
}

#[test]
fn failed_looks_wait_twice_as_long_each_time() {
    let s = session("paper");
    let waits: Vec<u64> = (0..5).map(|a| s.retry_wait(a)).collect();
    assert_eq!(waits, vec![2, 4, 8, 16, 32]);
    assert!(s.may_look(0) && s.may_look(4) && !s.may_look(5));
    assert_eq!(s.after_failure(0), Some(2));
    assert_eq!(s.after_failure(4), Some(32));
    assert_eq!(s.after_failure(5), None);
}

#[test]
fn session_waits_for_a_view_of_the_market() {
    let mut s = session("paper");
    s.begin_tick();
    assert!(matches!(s.step(F64(600.0), 0), LiveStep::Waiting));
    s.install(state());
    assert_eq!(s.grid.as_ref().unwrap().levels.len(), 4);
    assert_eq!(s.grid.as_ref().unwrap().build_atr, F64(6.0));
    assert_eq!(s.grid.as_ref().unwrap().build_price, F64(600.0));
    assert_eq!(s.grid.as_ref().unwrap().grid_levels, 4);
    assert!(matches!(s.step(F64(600.0), 0), LiveStep::Traded(_)));
}

#[test]
fn orders_go_out_in_live_mode_only() {
    for (mode, orders) in [("live", true), ("paper", false), ("other", false)] {
        let mut s = session(mode);
        s.cfg.copy_trade_enabled = orders;
        s.install(state());
        for _ in 0..10 {
            s.begin_tick();
        }
        match s.step(F64(590.0), 0) {
            LiveStep::Traded(t) => {
                assert_eq!(t.records.len(), 1);
                assert_eq!(t.place_orders, orders);
                assert_eq!(t.broadcast, orders);
                let line = t.status.unwrap();
                assert_eq!(line.value, F64(1000.0));
                assert_eq!(line.pnl_pct, F64(0.0));
                assert_eq!((line.trades, line.buys, line.sells), (1, 1, 0));
            }
            _ => panic!("no trade"),
        }
        s.begin_tick();
        match s.step(F64(590.0), 0) {
            LiveStep::Traded(t) => assert!(t.status.is_none() && t.records.is_empty()),
            _ => panic!("no tick"),
        }
    }
}

#[test]
fn pauses_hold_until_they_are_over() {
    let mut s = session("paper");
    s.install(state());
    s.risk.profit_target_pct = F64(0.0);
    match s.step(F64(600.0), 1_000) {
        LiveStep::Paused { until, reason } => {
            assert_eq!(until, 301_000);
            assert_eq!(reason, "✅ Take Profit 0.00%");
        }
        _ => panic!("no pause"),
    }
    assert!(matches!(s.step(F64(590.0), 300_999), LiveStep::Waiting));
    s.risk.profit_target_pct = F64(50.0);
    assert!(matches!(s.step(F64(590.0), 301_000), LiveStep::Traded(_)));
    assert_eq!(s.paused_until, None);
}

#[test]
fn safety_switch_halts_the_session() {
    let mut s = session("paper");
    s.install(state());
    s.paper.capital = F64(800.0);
    match s.step(F64(600.0), 0) {
        LiveStep::Halted(reason) => {
            assert_eq!(reason, "🔴 SAFETY SWITCH: DD 20.00% ≥ 12.0%");
        }
        _ => panic!("no halt"),
    }
}

#[test]
fn storm_pauses_for_a_minute() {
    let mut s = session("paper");
    let mut storm = state();
    storm.trend_signal = TrendSignal::Bearish;
    storm.regime = Regime::High;
    s.install(storm);
    assert!(matches!(s.step(F64(600.0), 5), LiveStep::Paused { until: 60_005, .. }));
}

#[test]
fn configuration_is_taken_up_without_a_restart() {
    let mut s = session("paper");
    let mut cfg = config();
    cfg.symbol = "ETHUSDT".to_string();
    cfg.mode = "live".to_string();
    cfg.grid_levels = 6;
    cfg.max_loss_pct = F64(7.0);
    assert!(s.reload(cfg, "", ""));
    assert_eq!(s.cfg.grid_levels, 6);
    assert_eq!(s.risk.max_loss_pct, F64(7.0));
    assert_eq!(s.cfg.symbol, "BNBUSDT");
    assert_eq!(s.cfg.mode, "paper");
    let mut faulty = config();
    faulty.grid_levels = 7;
    assert!(!s.reload(faulty, "", ""));
    let mut idle = config();
    idle.grid_rebuild_ticks = 0;
    assert!(!is_runnable(&idle));
    assert!(!s.reload(idle, "", ""));
    assert_eq!(s.cfg.grid_levels, 6);
}

#[test]
fn reload_leaves_live_mode_and_resizes_the_history() {
    let mut s = session("live");
    s.install(state());
    s.begin_tick();
    for price in [590.0, 584.0, 612.0] {
        s.step(F64(price), 0);
    }
    let before: Vec<String> = s.paper.trades.iter().map(|r| r.id.clone()).collect();
    assert!(before.len() > 2);
    let (capital, held, counter) = (s.paper.capital, s.paper.base_held, s.paper.counter);
    let mut cfg = config();
    cfg.mode = "paper".to_string();
    cfg.grid_levels = 4;
    cfg.max_trade_history = 2;
    assert!(s.reload(cfg, "key", "secret"));
    assert_eq!(s.cfg.mode, "paper");
    assert_eq!((s.cfg.max_trade_history, s.paper.max_history), (2, 2));
    let after: Vec<String> = s.paper.trades.iter().map(|r| r.id.clone()).collect();
    assert_eq!(after, before[before.len() - 2..].to_vec());
    assert_eq!((s.paper.capital, s.paper.base_held, s.paper.counter), (capital, held, counter));
    let mut back = config();
    back.mode = "live".to_string();
    back.max_trade_history = 0;
    assert!(!s.reload(back, "key", "secret"));
    let mut back = config();
    back.mode = "live".to_string();
    assert!(s.reload(back, "key", "secret"));
    assert_eq!(s.cfg.mode, "paper");
    match s.step(F64(600.0), 0) {
        LiveStep::Traded(t) => assert!(!t.place_orders),
        _ => panic!("no tick"),
    }
}

#[test]
fn history_can_be_resized() {
    let s = state();
    let g = DynamicGrid::build(&s, 8);
    let mut p = PaperTrader::new(F64(1000.0), 10, "X");
    p.simulate_fills(&g, F64(585.0), F64(20.0), &s, F64(1.0), F64(0.0005));
    let ids: Vec<String> = p.trades.iter().map(|r| r.id.clone()).collect();
    assert_eq!(ids.len(), 4);
    p.resize_history(20);
    assert_eq!((p.trades.len(), p.max_history), (4, 20));
    p.resize_history(3);
    let kept: Vec<String> = p.trades.iter().map(|r| r.id.clone()).collect();
    assert_eq!(kept, ids[1..].to_vec());
    assert_eq!((p.counter, p.filled_buys.len()), (4, 4));
    p.resize_history(0);
    assert!(p.trades.is_empty());
}

#[test]
fn noted_trades_touch_the_history_alone() {
    let s = state();
    let g = DynamicGrid::build(&s, 8);
    let mut other = PaperTrader::new(F64(1000.0), 10, "X");
    let records = other.simulate_fills(&g, F64(585.0), F64(20.0), &s, F64(1.0), F64(0.0005));
    let mut p = PaperTrader::new(F64(50.0), 3, "X");
    for r in &records {
        p.push_trade(r.duplicate());
    }
    let ids: Vec<String> = records.iter().map(|r| r.id.clone()).collect();
    let kept: Vec<String> = p.trades.iter().map(|r| r.id.clone()).collect();
    assert_eq!(kept, ids[1..].to_vec());
    assert_eq!((p.capital, p.base_held, p.counter, p.grid_id), (F64(50.0), F64(0.0), 0, 0));
    assert!(p.filled_buys.is_empty() && p.filled_sells.is_empty());
}

#[test]
fn order_of_levels_does_not_change_a_grid() {
    let s = state();
    let mut g = DynamicGrid::build(&s, 8);
    let mut p = PaperTrader::new(F64(1000.0), 10, "X");
    p.reset_for_grid(&g);
    let id = p.grid_id;
    assert_ne!(id, 0);
    g.levels.reverse();
    p.reset_for_grid(&g);
    assert_eq!(p.grid_id, id);
    g.levels.swap(1, 5);
    p.reset_for_grid(&g);
    assert_eq!(p.grid_id, id);
    g.levels.pop();
    p.reset_for_grid(&g);
    assert_ne!(p.grid_id, id);
}

#[test]
fn higher_targets_extend_the_run() {
    let candles = series(80, 0.8);
    let prices = closing_prices(&candles);
    let mut cfg = config();
    cfg.grid_rebuild_ticks = 20;
    let r = auto_optimize(&candles, &prices, &cfg);
    for w in r.windows(2) {
        assert!(w[0].total_trades <= w[1].total_trades);
        assert!(w[0].max_drawdown_pct.0 <= w[1].max_drawdown_pct.0);
    }
    let far = backtest_kernel(&candles, &prices, &cfg, F64(1000.0));
    let further = backtest_kernel(&candles, &prices, &cfg, F64(2000.0));
    assert_eq!((far.final_val, far.total_trades), (further.final_val, further.total_trades));
}

#[test]
fn candles_wait_for_their_window() {
    let candles = series(20, 0.8);
    let prices = closing_prices(&candles);
    let cfg = config();
    let run = |n: usize, c: &[Candle<F64>]| {
        let r = backtest_kernel(c, &prices[..n], &cfg, F64(1000.0));
        (r.final_val, r.max_dd, r.total_trades)
    };
    let wild = series(20, 9.0);
    assert_eq!(run(13, &candles), run(13, &wild));
    assert_eq!(run(13, &candles), run(13, &[]));
    assert_ne!(run(14, &candles), run(14, &wild));
}

#[test]
fn stop_has_the_text_of_the_last_note() {
    let mut cfg = config();
    cfg.grid_rebuild_ticks = 10;
    cfg.max_single_trade_pct = F64(0.9);
    cfg.profit_target_pct = F64(50.0);
    cfg.atr_rebuild_threshold_pct = F64(1000.0);
    let run = run_backtest(&falling(60), &cfg);
    match &run.status {
        BacktestStatus::Stopped(reason) => {
            assert_eq!(reason, "🔴 SAFETY SWITCH: DD 15.46%");
            assert_eq!(*reason, run.notes.last().unwrap().1);
        }
        _ => panic!("no stop"),
    }
    assert!(run.paper.capital.0 >= 0.0 && run.paper.base_held.0 >= 0.0);
}

#[test]
fn fills_are_never_better_than_the_order() {
    for price in [0.5, 1.0, 600.2, 600.7, 64_000.9] {
        for wick in [1.0, 2.5, 5.0] {
            let at = |side: Side, spread: f64, wick: f64| {
                let slip = F64(0.0005);
                apply_slippage(F64(price), &side, F64(spread), F64(400.0), slip, F64(wick))
            };
            assert!(at(Side::Buy, 0.0, wick).0 .0 >= price);
            assert!(at(Side::Sell, 0.0, wick).0 .0 <= price);
            assert!(at(Side::Buy, 9.0, wick).1 .0 >= at(Side::Buy, 8.0, wick).1 .0);
            assert!(at(Side::Buy, 9.0, wick + 1.0).1 .0 >= at(Side::Buy, 9.0, wick).1 .0);
        }
    }
}

#[test]
fn session_stays_solvent() {
    let mut s = session("paper");
    s.risk.max_single_trade = F64(1.0);
    s.install(state());
    for price in [597.0, 590.0, 580.0, 604.0, 612.0, 584.0, 620.0, 583.0, 630.0] {
        s.begin_tick();
        s.step(F64(price), 0);
        assert!(s.paper.capital.0 >= 0.0 && s.paper.base_held.0 >= 0.0);
        assert!(s.grid.as_ref().unwrap().levels.iter().all(|l| l.price.0 > 0.0));
    }
    assert!(s.paper.counter > 2);
}
