use spd_grid_bot::analyzer::{
    candles_url, check_status, latency_stats, statistics_possible, weight_pause, MarketAnalyzer,
};
use spd_grid_bot::models::{
    regime_bucket, Candle, RawKline, Regime, Side, TradingStatus, Trend, TrendSignal, WickProfile,
};
use spd_grid_bot::number::{Number, Value};
use std::collections::VecDeque;

#[derive(Clone, Copy, Debug, PartialEq)]
struct F64(f64);

impl Value for F64 {}

impl Number for F64 {
    fn plus(self, other: Self) -> Self {
        F64(self.0 + other.0)
    }
    fn minus(self, other: Self) -> Self {
        F64(self.0 - other.0)
    }
    fn times(self, other: Self) -> Self {
        F64(self.0 * other.0)
    }
    fn over(self, other: Self) -> Self {
        F64(self.0 / other.0)
    }
    fn negate(self) -> Self {
        F64(-self.0)
    }
    fn abs(self) -> Self {
        F64(self.0.abs())
    }
    fn round(self) -> Self {
        F64(self.0.round())
    }
    fn fract(self) -> Self {
        F64(self.0.fract())
    }
    fn sqrt(self) -> Self {
        F64(self.0.sqrt())
    }
    fn lt(self, other: Self) -> bool {
        self.0 < other.0
    }
    fn le(self, other: Self) -> bool {
        self.0 <= other.0
    }
    fn from_u64(n: u64) -> Self {
        F64(n as f64)
    }
    fn to_u64(self) -> u64 {
        self.0 as u64
    }
    fn infinity() -> Self {
        F64(f64::INFINITY)
    }
    fn neg_infinity() -> Self {
        F64(f64::NEG_INFINITY)
    }
    fn epsilon() -> Self {
        F64(f64::EPSILON)
    }
    fn trillionth() -> Self {
        F64(1e-12)
    }
    fn billionth() -> Self {
        F64(1e-9)
    }
    fn to_text(self, places: u8) -> String {
        format!("{:.*}", places as usize, self.0)
    }
    fn parse(text: &str) -> Option<Self> {
        text.parse::<f64>().ok().map(F64)
    }
}

fn candle(open: f64, high: f64, low: f64, close: f64) -> Candle<F64> {
    Candle { open: F64(open), high: F64(high), low: F64(low), close: F64(close) }
}

fn five() -> Vec<Candle<F64>> {
    vec![
        candle(100.0, 104.0, 98.0, 102.0),
        candle(102.0, 103.0, 97.0, 98.0),
        candle(98.0, 99.0, 90.0, 91.0),
        candle(91.0, 97.0, 91.0, 96.0),
        candle(96.0, 98.0, 95.0, 97.0),
    ]
}

fn series(n: usize) -> Vec<Candle<F64>> {
    let mut out = Vec::new();
    let mut p = 600.0_f64;
    for i in 0..n {
        let d = (((i * 37) % 11) as f64 - 5.0) * 0.8;
        let c = p + d;
        let high = p.max(c) + ((i * 13) % 5) as f64 * 0.3;
        let low = p.min(c) - ((i * 7) % 4) as f64 * 0.4;
        out.push(candle(p, high, low, c));
        p = c;
    }
    out
}

fn raw(open: &str, high: &str, low: &str, close: &str) -> RawKline {
    RawKline(
        0,
        open.to_string(),
        high.to_string(),
        low.to_string(),
        close.to_string(),
        "1".to_string(),
        0,
        "1".to_string(),
        1,
        "1".to_string(),
        "1".to_string(),
        "0".to_string(),
    )
}

#[test]
fn sides_have_words() {
    assert_eq!(Side::Buy.binance_str(), "BUY");
    assert_eq!(Side::Sell.binance_str(), "SELL");
}

#[test]
fn signals_have_factors_and_labels() {
    assert_eq!(TrendSignal::Bullish.position_mult::<F64>(), F64(1.20));
    assert_eq!(TrendSignal::Caution.position_mult::<F64>(), F64(0.85));
    assert_eq!(TrendSignal::Bearish.position_mult::<F64>(), F64(0.70));
    assert_eq!(TrendSignal::Bullish.spacing_mult::<F64>(), F64(0.90));
    assert_eq!(TrendSignal::Caution.spacing_mult::<F64>(), F64(1.00));
    assert_eq!(TrendSignal::Bearish.spacing_mult::<F64>(), F64(1.35));
    assert_eq!(TrendSignal::Bullish.label(), "🟢 BULLISH");
    assert_eq!(TrendSignal::Caution.label(), "🟡 CAUTION");
    assert_eq!(TrendSignal::Bearish.label(), "🔴 BEARISH");
}

#[test]
fn statuses_have_labels() {
    let tripped = TradingStatus::SafetySwitchTripped { reason: "x".to_string() };
    assert!(TradingStatus::Active.is_active() && !TradingStatus::Active.is_tripped());
    assert!(!TradingStatus::PausedUntil(5).is_active());
    assert!(tripped.is_tripped() && !tripped.is_active());
    assert_eq!(TradingStatus::Active.label(), "ACTIVE");
    assert_eq!(TradingStatus::PausedUntil(5).label(), "PAUSED");
    assert_eq!(tripped.label(), "TRIPPED");
}

#[test]
fn candle_shares() {
    let c = candle(1.0, 4.0, 0.0, 3.0);
    assert_eq!(c.body_ratio(), F64(0.5));
    assert_eq!(c.wick_ratio(), F64(0.5));
    assert_eq!(c.upper_wick_pct(), F64(0.25));
    assert_eq!(c.lower_wick_pct(), F64(0.25));
    let flat = candle(2.0, 2.0, 2.0, 2.0);
    assert_eq!(flat.body_ratio(), F64(1.0));
    assert_eq!(flat.wick_ratio(), F64(0.0));
    assert_eq!(flat.upper_wick_pct(), F64(0.0));
    assert_eq!(flat.lower_wick_pct(), F64(0.0));
    assert_eq!(five()[2].body_ratio(), F64(0.7777777777777778));
}

#[test]
fn body_share_is_cut_off_at_one() {
    assert_eq!(candle(0.0, 2.0, 1.0, 5.0).body_ratio(), F64(1.0));
    assert_eq!(candle(0.0, 2.0, 1.0, 5.0).wick_ratio(), F64(0.0));
}

#[test]
fn wick_profile_of_candles() {
    let w = WickProfile::from_candles(&five());
    assert_eq!(w.avg_wick_ratio, F64(0.4111111111111111));
    assert_eq!(w.long_wick_count, 2);
    assert_eq!(w.slippage_mult(), F64(2.3833333333333333));
    let none = WickProfile::<F64>::from_candles(&[]);
    assert_eq!(none.avg_wick_ratio, F64(0.0));
    assert_eq!(none.long_wick_count, 0);
    assert_eq!(none.slippage_mult(), F64(1.0));
}

#[test]
fn slippage_factor_stays_between_one_and_five() {
    let much = WickProfile { avg_wick_ratio: F64(1.0), long_wick_count: 200 };
    assert_eq!(much.slippage_mult(), F64(5.0));
    let odd = WickProfile { avg_wick_ratio: F64(-3.0), long_wick_count: 0 };
    assert_eq!(odd.slippage_mult(), F64(1.0));
}

#[test]
fn average_true_range() {
    assert_eq!(MarketAnalyzer::calc_atr(&five(), 2, F64(5.0)), F64(3.8875));
    assert_eq!(MarketAnalyzer::calc_atr(&five(), 2, F64(100.0)), F64(4.875));
    assert_eq!(MarketAnalyzer::calc_atr(&five(), 5, F64(5.0)), F64(0.0));
    assert_eq!(MarketAnalyzer::<F64>::calc_atr(&[], 0, F64(5.0)), F64(0.0));
}

#[test]
fn relative_strength() {
    assert_eq!(MarketAnalyzer::calc_rsi(&five(), 2), F64(55.99999999999999));
    assert_eq!(MarketAnalyzer::calc_rsi(&five(), 5), F64(50.0));
    let rising = vec![candle(1.0, 1.0, 1.0, 1.0), candle(2.0, 2.0, 2.0, 2.0)];
    assert_eq!(MarketAnalyzer::calc_rsi(&rising, 1), F64(100.0));
    let falling = vec![candle(2.0, 2.0, 2.0, 2.0), candle(1.0, 1.0, 1.0, 1.0)];
    assert_eq!(MarketAnalyzer::calc_rsi(&falling, 1), F64(0.0));
}

#[test]
fn relative_strength_of_flat_and_mirrored_markets() {
    let flat: Vec<Candle<F64>> = (0..20).map(|_| candle(5.0, 5.0, 5.0, 5.0)).collect();
    assert_eq!(MarketAnalyzer::calc_rsi(&flat, 14), F64(100.0));
    let a = series(40);
    let b: Vec<Candle<F64>> = a
        .iter()
        .map(|c| candle(c.open.0, c.high.0, c.low.0, 1000.0 - c.close.0))
        .collect();
    let (x, y) = (MarketAnalyzer::calc_rsi(&a, 14), MarketAnalyzer::calc_rsi(&b, 14));
    assert!((x.0 + y.0 - 100.0).abs() < 1e-9);
}

#[test]
fn ranges_are_capped_and_scale() {
    let a = series(40);
    let b: Vec<Candle<F64>> = a
        .iter()
        .map(|c| candle(8.0 * c.open.0, 8.0 * c.high.0, 8.0 * c.low.0, 8.0 * c.close.0))
        .collect();
    let (x, y) =
        (MarketAnalyzer::calc_atr(&a, 14, F64(5.0)), MarketAnalyzer::calc_atr(&b, 14, F64(5.0)));
    assert_eq!(y, F64(8.0 * x.0));
    let top = a.iter().map(|c| c.close.0).fold(0.0, f64::max);
    assert!(MarketAnalyzer::calc_atr(&a, 14, F64(0.1)).0 <= top * 0.1 / 100.0);
}

#[test]
fn shares_add_up() {
    for c in five() {
        let sum = c.body_ratio().0 + c.upper_wick_pct().0 + c.lower_wick_pct().0;
        assert!((sum - 1.0).abs() < 1e-12);
    }
    assert_eq!(candle(5.0, 9.0, 1.0, 5.0).body_ratio(), F64(0.0));
    assert_eq!(candle(1.0, 9.0, 1.0, 9.0).body_ratio(), F64(1.0));
}

#[test]
fn exponential_average() {
    assert_eq!(MarketAnalyzer::calc_ema(&five(), 3), F64(96.75));
    assert_eq!(MarketAnalyzer::calc_ema(&five(), 6), F64(97.0));
    assert_eq!(MarketAnalyzer::<F64>::calc_ema(&[], 6), F64(0.0));
}

#[test]
fn trend_signals() {
    let signal = |p: f64, a: f64, b: f64| MarketAnalyzer::trend_signal(F64(p), F64(a), F64(b));
    assert_eq!(signal(103.0, 102.0, 100.0), TrendSignal::Bullish);
    assert_eq!(signal(101.0, 102.0, 100.0), TrendSignal::Caution);
    assert_eq!(signal(97.0, 98.0, 100.0), TrendSignal::Bearish);
    assert_eq!(signal(99.0, 98.0, 100.0), TrendSignal::Caution);
    assert_eq!(signal(103.0, 100.0, 100.0), TrendSignal::Caution);
}

#[test]
fn regimes_and_buckets_agree() {
    for (atr, regime, bucket) in [
        (0.7, Regime::Low, 0),
        (0.8, Regime::Medium, 1),
        (1.9, Regime::Medium, 1),
        (2.0, Regime::High, 2),
        (9.0, Regime::High, 2),
    ] {
        assert_eq!(MarketAnalyzer::regime(F64(atr), F64(100.0)), regime);
        assert_eq!(regime_bucket(F64(atr), F64(100.0)), bucket);
    }
}

#[test]
fn spread_stays_in_its_range() {
    assert_eq!(MarketAnalyzer::spread_bps(F64(1.0), F64(100.0), &Regime::Medium), F64(18.0));
    assert_eq!(MarketAnalyzer::spread_bps(F64(9.0), F64(100.0), &Regime::High), F64(30.0));
    assert_eq!(MarketAnalyzer::spread_bps(F64(0.0), F64(100.0), &Regime::Low), F64(0.5));
}

#[test]
fn full_analysis() {
    let s = MarketAnalyzer::analyze(&series(60), F64(601.5), F64(5.0));
    assert_eq!(s.price, F64(601.5));
    assert_eq!(s.atr, F64(3.3236120409898198));
    assert_eq!(s.rsi, F64(46.015966860660356));
    assert_eq!(s.ema9, F64(596.1263574568019));
    assert_eq!(s.ema20, F64(596.5181450414649));
    assert_eq!(s.ema21, F64(596.5300372093966));
    assert_eq!(s.ema50, F64(596.6673430573609));
    assert_eq!(s.trend, Trend::Neutral);
    assert_eq!(s.trend_signal, TrendSignal::Caution);
    assert_eq!(s.regime, Regime::Low);
    assert_eq!(s.spread_bps, F64(6.630647463321336));
    assert_eq!(s.wick_profile.avg_wick_ratio, F64(0.416562958167359));
    assert_eq!(s.wick_profile.long_wick_count, 5);
}

#[test]
fn raw_candles_are_filtered() {
    let mut rows: Vec<RawKline> = Vec::new();
    for _ in 0..21 {
        rows.push(raw("100", "101", "99", "100.5"));
    }
    rows.push(raw("x", "101", "99", "100"));
    rows.push(raw("100", "0", "0", "100"));
    rows.push(raw("100", "99", "101", "100"));
    rows.push(raw("100", "120", "90", "100"));
    rows.push(raw("100", "101", "99", "-1"));
    let candles = MarketAnalyzer::get_candles(&rows, F64(5.0)).unwrap();
    assert_eq!(candles.len(), 21);
    assert_eq!(candles[20].open, F64(100.0));
    assert_eq!(candles[20].high, F64(101.0));
    assert_eq!(candles[20].low, F64(99.0));
    assert_eq!(candles[20].close, F64(100.5));
    rows.remove(0);
    let e = MarketAnalyzer::get_candles(&rows, F64(5.0)).unwrap_err();
    assert_eq!(e, "Insufficient candles: 20");
}

#[test]
fn addresses_and_answers() {
    assert_eq!(
        candles_url("BNBUSDT", "1h", 100),
        "https://api.binance.com/api/v3/klines?symbol=BNBUSDT&interval=1h&limit=100"
    );
    assert_eq!(weight_pause(None), None);
    assert_eq!(weight_pause(Some(1000)), None);
    assert_eq!(weight_pause(Some(1001)), Some(5));
    assert_eq!(check_status(200, "200 OK"), Ok(()));
    assert_eq!(check_status(299, "299"), Ok(()));
    assert_eq!(check_status(429, "429 Too Many"), Err("429 Rate limit".to_string()));
    assert_eq!(check_status(403, "403 No"), Err("403 Forbidden".to_string()));
    assert_eq!(check_status(500, "500 Oops"), Err("HTTP 500 Oops".to_string()));
    assert_eq!(check_status(199, "199"), Err("HTTP 199".to_string()));
}

#[test]
fn latency_figures() {
    let empty: VecDeque<u64> = VecDeque::new();
    assert_eq!(latency_stats::<F64>(&empty), None);
    let buf: VecDeque<u64> = vec![10, 20, 31].into_iter().collect();
    assert!(statistics_possible(&buf));
    let (avg, min, max, dev) = latency_stats::<F64>(&buf).unwrap();
    assert_eq!((avg, min, max), (20, 10, 31));
    assert_eq!(dev, F64((221.0_f64 / 3.0).sqrt()));
}

#[test]
fn mean_lies_between_the_extremes() {
    let buf: VecDeque<u64> = vec![7, 900, 13, 13, 450].into_iter().collect();
    let (avg, min, max, _) = latency_stats::<F64>(&buf).unwrap();
    assert!(min <= avg && avg <= max);
}

#[test]
fn body_has_no_direction() {
    for (open, close) in [(10.0, 12.0), (9.5, 9.0), (11.0, 11.0), (9.0, 13.0)] {
        let (a, b) = (candle(open, 13.0, 9.0, close), candle(close, 13.0, 9.0, open));
        assert_eq!(a.body_ratio(), b.body_ratio());
        assert_eq!(a.wick_ratio(), b.wick_ratio());
    }
    assert_eq!(candle(11.0, 13.0, 9.0, 11.0).body_ratio(), F64(0.0));
    assert_eq!(candle(9.0, 13.0, 9.0, 13.0).body_ratio(), F64(1.0));
    assert_eq!(candle(13.0, 13.0, 9.0, 9.0).wick_ratio(), F64(0.0));
}

#[test]
fn slippage_factor_grows_with_every_count() {
    let w = |count: usize| {
        WickProfile { avg_wick_ratio: F64(0.5), long_wick_count: count }.slippage_mult()
    };
    assert_eq!(w(10), F64(3.25));
    for n in [0, 1, 9, 1_000_000, 5_000_000_000] {
        assert!(w(n).0 <= w(n + 1).0);
    }
}

#[test]
fn range_does_not_look_at_opens() {
    let candles = series(30);
    let mut other = candles.clone();
    for c in &mut other {
        c.open = F64(1.0);
    }
    let cap = F64(5.0);
    assert_eq!(
        MarketAnalyzer::calc_atr(&candles, 14, cap),
        MarketAnalyzer::calc_atr(&other, 14, cap)
    );
    // Nor at the last close.
    other[29].close = F64(1e9);
    assert_eq!(
        MarketAnalyzer::calc_atr(&candles, 14, cap),
        MarketAnalyzer::calc_atr(&other, 14, cap)
    );
}
