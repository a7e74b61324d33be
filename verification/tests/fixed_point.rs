use spd_grid_bot::analyzer::MarketAnalyzer;
use spd_grid_bot::fixed::Fixed;
use spd_grid_bot::grid::DynamicGrid;
use spd_grid_bot::models::{
    Candle, MarketState, Regime, Side, Trend, TrendSignal, WickProfile,
};
use spd_grid_bot::number::{clamp, lit, max_of, min_of, sum_of, Number};
use spd_grid_bot::optimizer::sharpe;
use spd_grid_bot::paper::{apply_slippage, PaperTrader};

fn fx(text: &str) -> Fixed {
    Fixed::parse(text).unwrap()
}

#[test]
fn fixed_reads_and_writes() {
    assert_eq!(fx("1.5").units, 15_000_000);
    assert_eq!(fx("-0.0000001").units, -1);
    assert_eq!(fx("12").to_text(2), "12.00");
    assert_eq!(Fixed::parse(""), None);
    assert_eq!(Fixed::parse("1.2.3"), None);
    assert_eq!(Fixed::parse("x"), None);
    assert_eq!(fx("1.25").to_text(4), "1.2500");
    assert_eq!(fx("-3.5").to_text(1), "-3.5");
    assert_eq!(fx("+1.5"), fx("1.5"));
    assert_eq!(fx("1e3"), fx("1000"));
    assert_eq!(fx("2.5E-2"), fx("0.025"));
    assert_eq!(fx("-1e+1"), fx("-10"));
    assert_eq!((fx(".5"), fx("5.")), (fx("0.5"), fx("5")));
    for bad in [".", "-", "+", "e3", "1e", "1e+", "1e1.5", "--1", "1 "] {
        assert_eq!(Fixed::parse(bad), None);
    }
}

#[test]
fn fixed_arithmetic() {
    assert_eq!(fx("1.5").plus(fx("2.25")), fx("3.75"));
    assert_eq!(fx("1.5").minus(fx("2.25")), fx("-0.75"));
    assert_eq!(fx("1.5").times(fx("-2")), fx("-3"));
    assert_eq!(fx("1").over(fx("3")), fx("0.3333333"));
    assert_eq!(fx("2").sqrt(), fx("1.4142135"));
    assert_eq!(fx("2.5").round(), fx("3"));
    assert_eq!(fx("-2.5").round(), fx("-3"));
    assert_eq!(fx("2.75").fract(), fx("0.75"));
    assert_eq!(fx("-2").abs(), fx("2"));
    assert_eq!(fx("7.9").to_u64(), 7);
    assert_eq!(fx("-7.9").to_u64(), 0);
    assert_eq!(Fixed::infinity().plus(fx("1")), Fixed::infinity());
    assert_eq!(Fixed::neg_infinity().minus(fx("1")), Fixed::neg_infinity());
    assert!(fx("1").lt(fx("2")) && fx("2").le(fx("2")) && !fx("2").lt(fx("2")));
}

#[test]
fn helpers_over_fixed() {
    assert_eq!(lit::<Fixed>(1, 4), fx("0.25"));
    assert_eq!(max_of(fx("1"), fx("2")), fx("2"));
    assert_eq!(min_of(fx("1"), fx("2")), fx("1"));
    assert_eq!(clamp(fx("5"), fx("1"), fx("2")), fx("2"));
    assert_eq!(clamp(fx("0"), fx("1"), fx("2")), fx("1"));
    assert_eq!(clamp(fx("1.5"), fx("1"), fx("2")), fx("1.5"));
    assert_eq!(sum_of(&[fx("1"), fx("2"), fx("3")]), fx("6"));
    assert!(fx("0").lt(Fixed::epsilon()));
    assert!(fx("0").lt(Fixed::trillionth()));
    assert!(fx("0").lt(Fixed::billionth()));
}

#[test]
fn formulas_over_fixed() {
    let c = Candle { open: fx("1"), high: fx("4"), low: fx("0"), close: fx("3") };
    assert_eq!(c.body_ratio(), fx("0.5"));
    let (p, s) =
        apply_slippage(fx("600.7"), &Side::Buy, fx("5"), fx("500"), fx("0.0005"), fx("2"));
    assert_eq!((p, s), (fx("601.18056"), fx("0.48056")));
}

#[test]
fn fixed_texts_are_rounded() {
    assert_eq!(fx("1.99999").to_text(4), "2.0000");
    assert_eq!(fx("1.99994").to_text(4), "1.9999");
    assert_eq!(fx("0.25").to_text(1), "0.2");
    assert_eq!(fx("0.35").to_text(1), "0.4");
    assert_eq!(fx("2.5").to_text(0), "2");
    assert_eq!(fx("-1.005").to_text(2), "-1.00");
    assert_eq!(fx("1.2345678").to_text(9), "1.234567800");
}

#[test]
fn thresholds_over_fixed() {
    assert_eq!(sharpe(&[fx("2"), fx("2")]), fx("0"));
    assert_eq!(sharpe(&[fx("1")]), fx("0"));
    let s = sharpe(&[fx("1"), fx("3")]);
    assert!(s.minus(fx("22.449944")).abs().lt(fx("0.00001")));
    let c = Candle { open: fx("5"), high: fx("5"), low: fx("5"), close: fx("5") };
    assert_eq!(c.body_ratio(), fx("1"));
    let flat = [c; 20];
    assert_eq!(MarketAnalyzer::calc_rsi(&flat, 14), fx("100"));
}

#[test]
fn keys_of_high_prices_differ() {
    assert_eq!(PaperTrader::key(fx("1000000")), 10_000_000_000);
    assert_eq!(PaperTrader::key(fx("2000000")), 20_000_000_000);
    assert_eq!(PaperTrader::key(fx("90000000")), 900_000_000_000);
}

fn candles(k: i64) -> Vec<Candle<Fixed>> {
    (0..40i64)
        .map(|i| {
            let at = |d: i64| Fixed { units: k * (6_000_000_007 + (i * 37 % 11) * 3_000_001 + d) };
            Candle { open: at(5), high: at(9_000_011), low: at(-8_000_003), close: at(1_234_567) }
        })
        .collect()
}

fn market(k: i64) -> MarketState<Fixed> {
    let price = Fixed { units: k * 6_000_000_007 };
    MarketState {
        price,
        atr: Fixed { units: k * 60_000_013 },
        rsi: fx("50"),
        ema9: price,
        ema20: price,
        ema21: price,
        ema50: price,
        trend: Trend::Up,
        trend_signal: TrendSignal::Bullish,
        regime: Regime::Medium,
        spread_bps: fx("5"),
        wick_profile: WickProfile { avg_wick_ratio: fx("0"), long_wick_count: 0 },
    }
}

#[test]
fn ranges_over_fixed_are_capped_and_scale() {
    let one = candles(1);
    let cap = fx("0.5");
    let atr = MarketAnalyzer::calc_atr(&one, 14, cap);
    let top = one[..39].iter().map(|c| c.close.units).max().unwrap();
    assert!(0 < atr.units && atr.le(Fixed { units: top }.times(cap).over(fx("100"))));
    let seven = MarketAnalyzer::calc_atr(&candles(7), 14, cap);
    let gap = seven.units - 7 * atr.units;
    assert!(0 <= gap && gap < 7 * 14);
}

#[test]
fn strengths_over_fixed_mirror() {
    let one = candles(1);
    let mirror = fx("2000");
    let mut other = one.clone();
    for c in &mut other {
        c.close = mirror.minus(c.close);
    }
    let sum = MarketAnalyzer::calc_rsi(&one, 14).plus(MarketAnalyzer::calc_rsi(&other, 14));
    assert!(1_000_000_000 - 200 <= sum.units && sum.units <= 1_000_000_000 + 2);
}

#[test]
fn grids_over_fixed_stay_and_scale() {
    for n in [2, 8, 20] {
        let small = DynamicGrid::build(&market(1), n);
        assert_eq!(small.needs_rebuild(&market(1), fx("0.1")), (false, ""));
        let large = DynamicGrid::build(&market(100), n);
        assert_eq!((small.levels.len(), large.levels.len()), (n, n));
        let gap = 100 * (n as i64 / 2 + 3) + 500 * 101;
        for (a, b) in small.levels.iter().zip(large.levels.iter()) {
            assert_eq!(a.side, b.side);
            assert!((b.price.units - 100 * a.price.units).abs() <= gap);
        }
        for i in 1..n / 2 {
            assert!(small.levels[i].price.lt(small.levels[i - 1].price));
            assert!(small.levels[n / 2 + i - 1].price.lt(small.levels[n / 2 + i].price));
        }
    }
}

#[test]
fn shares_over_fixed_add_up() {
    for c in candles(1) {
        let sum = c.body_ratio().plus(c.upper_wick_pct()).plus(c.lower_wick_pct());
        assert!(9_999_998 <= sum.units && sum.units <= 10_000_000);
    }
}

#[test]
fn slippage_over_fixed_has_its_closed_form() {
    let (price, spread, wick) = (fx("600.7000003"), fx("7"), fx("2.5"));
    let slip = fx("0.0005");
    let (exec, off) = apply_slippage(price, &Side::Buy, spread, fx("377"), slip, wick);
    let impact = price.times(slip).times(fx("0.377"));
    let middle = price.times(spread).over(fx("20000")).plus(impact.times(wick));
    assert_eq!(off.minus(middle).units, impact.units / 5);
    assert_eq!(exec, price.plus(off));
}
