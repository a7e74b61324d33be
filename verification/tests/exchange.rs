use spd_grid_bot::config::{
    d_atr_cap, d_atr_rebuild, d_ct_port, d_empty, d_false, d_fee_pct, d_heartbeat, d_paper,
    d_status, BotConfig,
};
use spd_grid_bot::copytrade::{
    admin_token, health, listen_address, sign_signal, CopyBroadcast, CopyTradeState,
    FeeVerifyRequest, RegisterRequest,
};
use spd_grid_bot::models::{Side, TradeRecord, WsExecutionReport, WsTrade};
use spd_grid_bot::network::{
    trade_stream_url, Backoff, FeedAction, FeedEvent, PriceFeed, PriceUpdate, RateLimiter,
};
use spd_grid_bot::number::{Number, Value};
use spd_grid_bot::signing::sign_payload;
use spd_grid_bot::text::{decimal, is_before, starts_with, strip_end};
use spd_grid_bot::trader::{
    order_failure, stream_url, AccountInfo, Balance, BinanceTrader, Method, OrderPlan,
    OrderResponse, StreamAction, StreamEvent, TickerPrice, UserDataStream,
};

#[derive(Clone, Copy, Debug, PartialEq)]
struct F64(f64);

impl Value for F64 {}

impl Number for F64 {
    fn plus(self, other: Self) -> Self {
        F64(self.0 + other.0)
    }
    fn minus(self, other: Self) -> Self {
        F64(self.0 - other.0)
    }
    fn times(self, other: Self) -> Self {
        F64(self.0 * other.0)
    }
    fn over(self, other: Self) -> Self {
        F64(self.0 / other.0)
    }
    fn negate(self) -> Self {
        F64(-self.0)
    }
    fn abs(self) -> Self {
        F64(self.0.abs())
    }
    fn round(self) -> Self {
        F64(self.0.round())
    }
    fn fract(self) -> Self {
        F64(self.0.fract())
    }
    fn sqrt(self) -> Self {
        F64(self.0.sqrt())
    }
    fn lt(self, other: Self) -> bool {
        self.0 < other.0
    }
    fn le(self, other: Self) -> bool {
        self.0 <= other.0
    }
    fn from_u64(n: u64) -> Self {
        F64(n as f64)
    }
    fn to_u64(self) -> u64 {
        self.0 as u64
    }
    fn infinity() -> Self {
        F64(f64::INFINITY)
    }
    fn neg_infinity() -> Self {
        F64(f64::NEG_INFINITY)
    }
    fn epsilon() -> Self {
        F64(f64::EPSILON)
    }
    fn trillionth() -> Self {
        F64(1e-12)
    }
    fn billionth() -> Self {
        F64(1e-9)
    }
    fn to_text(self, places: u8) -> String {
        format!("{:.*}", places as usize, self.0)
    }
    fn parse(text: &str) -> Option<Self> {
        text.parse::<f64>().ok().map(F64)
    }
}

// Signatures

#[test]
fn signatures_are_hex_digests() {
    assert_eq!(
        sign_payload("my secret and secure key", "input message"),
        "97d2a569059bbcd8ead4444ff99071f4c01d005bcefe0d3567e1be628e5fdcd9"
    );
}

#[test]
fn signals_carry_the_head_of_a_signature() {
    let s = sign_signal("topsecret", "BNBUSDT", "BUY", F64(594.7557852), "2025-01-02T03:04:05");
    assert_eq!(s, "3d913fac8e3acd43");
    assert_ne!(s, sign_signal("other", "BNBUSDT", "BUY", F64(594.7557852), "2025-01-02T03:04:05"));
}

// Texts

#[test]
fn texts() {
    assert_eq!(decimal(0), "0");
    assert_eq!(decimal(1_700_000_000_123), "1700000000123");
    assert_eq!(decimal(u64::MAX), "18446744073709551615");
    assert!(starts_with("https://x", "http") && !starts_with("ftp://x", "http"));
    assert_eq!(strip_end("BNBUSDTUSDT", "USDT"), Some("BNBUSDT"));
    assert_eq!(strip_end("BNB", "USDT"), None);
    assert!(is_before("2025-01-01", "2025-01-02"));
    assert!(!is_before("2025-01-02", "2025-01-02"));
    assert!(is_before("2025", "2025-01-02"));
}

// The configuration

#[test]
fn defaults_of_the_configuration() {
    let c = BotConfig::<F64>::load(None);
    assert_eq!(c.symbol, "BNBUSDT");
    assert_eq!(c.total_capital, F64(20.0));
    assert_eq!(c.grid_levels, 8);
    assert_eq!(c.max_single_trade_pct, F64(0.09));
    assert_eq!(c.slippage_pct, F64(0.0005));
    assert_eq!(c.status_secs, 60);
    assert!(c.is_paper() && !c.is_live() && !c.is_backtest());
    assert!(c.validate("", "").is_empty());
    assert_eq!(d_atr_rebuild::<F64>(), F64(15.0));
    assert_eq!(d_atr_cap::<F64>(), F64(5.0));
    assert_eq!(d_fee_pct::<F64>(), F64(10.0));
    assert_eq!((d_heartbeat(), d_status(), d_ct_port(), d_false()), (30, 30, 8080, false));
    assert_eq!((d_empty(), d_paper()), ("".to_string(), "paper".to_string()));
}

#[test]
fn faults_of_the_configuration() {
    let fault = |change: fn(&mut BotConfig<F64>)| {
        let mut c = BotConfig::<F64>::default();
        change(&mut c);
        c.validate("", "")
    };
    assert_eq!(fault(|c| c.total_capital = F64(0.0)), vec!["total_capital must be > 0"]);
    assert_eq!(fault(|c| c.grid_levels = 0), vec!["grid_levels must be even and ≥ 2"]);
    assert_eq!(fault(|c| c.grid_levels = 5), vec!["grid_levels must be even and ≥ 2"]);
    assert_eq!(fault(|c| c.max_loss_pct = F64(100.0)), vec!["max_loss_pct must be 0..100"]);
    assert_eq!(
        fault(|c| c.max_single_trade_pct = F64(1.1)),
        vec!["max_single_trade_pct must be 0..1"]
    );
    assert_eq!(fault(|c| c.slippage_pct = F64(0.011)), vec!["slippage_pct must be 0..0.01"]);
    assert_eq!(fault(|c| c.min_notional_usdt = F64(0.5)), vec!["min_notional_usdt must be ≥ 1"]);
    assert_eq!(
        fault(|c| c.mode = "live".to_string()),
        vec!["LIVE mode requires BINANCE_API_KEY + BINANCE_API_SECRET in .env"]
    );
    let both = fault(|c| {
        c.total_capital = F64(-1.0);
        c.slippage_pct = F64(-0.1);
    });
    assert_eq!(both, vec!["total_capital must be > 0", "slippage_pct must be 0..0.01"]);
}

#[test]
fn live_mode_needs_both_keys() {
    let mut c = BotConfig::<F64>::default();
    c.mode = "live".to_string();
    assert!(c.is_live());
    assert_eq!(c.validate("k", "").len(), 1);
    assert_eq!(c.validate("", "s").len(), 1);
    assert!(c.validate("k", "s").is_empty());
}

#[test]
fn symbols_in_lower_case() {
    let mut c = BotConfig::<F64>::default();
    assert_eq!(c.symbol_lower(), "bnbusdt");
    c.symbol = "ÄTHusdt1".to_string();
    assert_eq!(c.symbol_lower(), "äthusdt1");
}

// The feed

#[test]
fn bucket_gives_tokens_and_waits() {
    let mut b = RateLimiter::<F64>::new(2);
    assert_eq!(b.acquire(F64(0.0)), None);
    assert_eq!(b.acquire(F64(0.0)), None);
    assert_eq!(b.acquire(F64(0.0)), Some(501));
    assert_eq!(b.acquire(F64(0.25)), Some(251));
    assert_eq!(b.acquire(F64(0.25)), None);
    // However long it rests, it holds no more than its capacity.
    assert_eq!(b.acquire(F64(1000.0)), None);
    assert_eq!(b.acquire(F64(0.0)), None);
    assert_eq!(b.acquire(F64(0.0)), Some(501));
}

#[test]
fn prices_grow_stale() {
    let p = PriceUpdate { price: F64(1.0), received: 1_000 };
    assert_eq!(p.age_ms(1_500), 500);
    assert_eq!(p.age_ms(900), 0);
    assert!(!p.is_stale(1_500, 500) && p.is_stale(1_501, 500));
}

#[test]
fn waits_double_up_to_a_minute() {
    let mut b = Backoff::new();
    let waits: Vec<u64> = (0..8).map(|_| b.wait()).collect();
    assert_eq!(waits, vec![1, 2, 4, 8, 16, 32, 60, 60]);
    b.reset();
    assert_eq!(b.wait(), 1);
}

fn trade(price: &str, trade_time: u64, now_ms: u64) -> FeedEvent {
    FeedEvent::Trade { trade: WsTrade { price: price.to_string(), trade_time }, now_ms }
}

#[test]
fn feed_publishes_prices_and_reconnects() {
    let mut f = PriceFeed::new(2);
    assert!(matches!(f.on_event::<F64>(FeedEvent::ConnectFailed), FeedAction::Reconnect(1)));
    assert!(matches!(f.on_event::<F64>(FeedEvent::ConnectFailed), FeedAction::Reconnect(2)));
    assert!(matches!(f.on_event::<F64>(FeedEvent::Connected), FeedAction::Read));
    assert!(matches!(
        f.on_event::<F64>(trade("600.5", 1_000, 1_010)),
        FeedAction::Publish(F64(p)) if p == 600.5
    ));
    assert!(matches!(f.on_event::<F64>(trade("junk", 1_000, 1_010)), FeedAction::Read));
    f.on_event::<F64>(trade("601", 2_000, 1_999));
    f.on_event::<F64>(trade("602", 2_000, 2_030));
    assert_eq!(f.latencies().iter().copied().collect::<Vec<u64>>(), vec![0, 30]);
    assert!(matches!(f.on_event::<F64>(FeedEvent::Other), FeedAction::Read));
    assert!(matches!(f.on_event::<F64>(FeedEvent::ReadFailed), FeedAction::Reconnect(3)));
    assert!(matches!(f.on_event::<F64>(FeedEvent::Ended), FeedAction::Reconnect(4)));
    assert!(matches!(f.on_event::<F64>(FeedEvent::Closed), FeedAction::Reconnect(8)));
    assert_eq!(
        trade_stream_url("bnbusdt"),
        "wss://stream.binance.com:9443/ws/bnbusdt@aggTrade"
    );
}

// Orders

fn trader(dry_run: bool) -> BinanceTrader {
    BinanceTrader::new("key".to_string(), "s3cret".to_string(), "BNBUSDT".to_string(), dry_run)
}

#[test]
fn limit_orders_are_signed() {
    let t = trader(false);
    match t.place_limit_order(&Side::Buy, F64(0.03362), F64(594.6), 1_700_000_000_000) {
        OrderPlan::Send(r) => {
            assert_eq!(r.method, Method::Post);
            assert_eq!(r.url, "https://api.binance.com/api/v3/order");
            assert_eq!(r.api_key, Some("key".to_string()));
            assert_eq!(
                r.body.unwrap(),
                "symbol=BNBUSDT&side=BUY&type=LIMIT&timeInForce=GTC&quantity=0.0336&price=594.6000&timestamp=1700000000000&signature=8c1201432852bbb0cbc962b160255fefabc68814df289d7a3f963733e86dada4"
            );
        }
        OrderPlan::DryRun(_) => panic!("not sent"),
    }
}

#[test]
fn dry_runs_send_nothing() {
    let t = trader(true);
    match t.place_limit_order(&Side::Sell, F64(0.5), F64(600.0), 1) {
        OrderPlan::DryRun(r) => {
            assert_eq!(r.symbol, "BNBUSDT");
            assert_eq!(r.order_id, 0);
            assert_eq!(r.status, "DRY_RUN");
            assert_eq!(r.executed_qty, "0.5000");
            assert_eq!(r.cumulative_quote_qty, "0");
            assert_eq!(r.price, "600.0000");
        }
        OrderPlan::Send(_) => panic!("sent"),
    }
    assert!(t.cancel_order(42, 5).is_none());
}

#[test]
fn other_requests() {
    let t = trader(false);
    let c = t.cancel_order(42, 5).unwrap();
    assert_eq!(c.method, Method::Delete);
    assert_eq!(
        c.body.unwrap(),
        "symbol=BNBUSDT&orderId=42&timestamp=5&signature=99f3e6f74fe28093b83b11074c763d1887076b15c8be51d827ed149c82f2428f"
    );
    let p = t.price_request();
    assert_eq!(p.method, Method::Get);
    assert_eq!(p.url, "https://api.binance.com/api/v3/ticker/price?symbol=BNBUSDT");
    assert_eq!(p.api_key, None);
    let a = t.account_request(7);
    assert_eq!(
        a.url,
        "https://api.binance.com/api/v3/account?timestamp=7&signature=caa608553122384ae1a2ceba822cfdea77bd273bb96023ae3d9022fef52b331c"
    );
    assert_eq!(a.api_key, Some("key".to_string()));
    let l = t.create_listen_key();
    assert_eq!(l.method, Method::Post);
    assert_eq!(l.url, "https://api.binance.com/api/v3/userDataStream");
    let k = t.keepalive_listen_key("abc");
    assert_eq!(k.method, Method::Put);
    assert_eq!(k.url, "https://api.binance.com/api/v3/userDataStream?listenKey=abc");
    assert_eq!(stream_url("abc"), "wss://stream.binance.com:9443/ws/abc");
}

#[test]
fn answers_are_read() {
    let ticker = TickerPrice { symbol: "BNBUSDT".to_string(), price: "601.25".to_string() };
    assert_eq!(BinanceTrader::get_price::<F64>(&ticker), Some(F64(601.25)));
    let bad = TickerPrice { symbol: "BNBUSDT".to_string(), price: "?".to_string() };
    assert_eq!(BinanceTrader::get_price::<F64>(&bad), None);
    let balance = |asset: &str, free: &str| Balance {
        asset: asset.to_string(),
        free: free.to_string(),
        locked: "0".to_string(),
    };
    let info = AccountInfo {
        balances: vec![
            balance("BTC", "9"),
            balance("BNB", "1.5"),
            balance("BNB", "7"),
            balance("USDT", "20"),
        ],
    };
    assert_eq!(trader(false).get_balances::<F64>(&info), (F64(20.0), F64(1.5)));
    let other = BinanceTrader::new(
        "k".to_string(),
        "s".to_string(),
        "SOLUSDT".to_string(),
        false,
    );
    assert_eq!(other.get_balances::<F64>(&info), (F64(20.0), F64(0.0)));
    for (symbol, base) in [
        ("BTCUSDT", 9.0),
        ("BNBBTC", 1.5),
        ("BTCETH", 9.0),
        ("USDTUSDT", 20.0),
        ("BTC", 0.0),
        ("BNB", 1.5),
    ] {
        let t = BinanceTrader::new("k".to_string(), "s".to_string(), symbol.to_string(), false);
        assert_eq!(t.get_balances::<F64>(&info).1, F64(base));
    }
    assert_eq!(order_failure(200, "200 OK", ""), None);
    assert_eq!(
        order_failure(400, "400 Bad Request", "no"),
        Some("HTTP 400 Bad Request — no".to_string())
    );
}

#[test]
fn placed_orders_are_recorded() {
    let t = trader(false);
    let resp = |price: &str, qty: &str| OrderResponse {
        symbol: "BNBUSDT".to_string(),
        order_id: 77,
        status: "FILLED".to_string(),
        executed_qty: qty.to_string(),
        cumulative_quote_qty: "0".to_string(),
        price: price.to_string(),
    };
    let r = t
        .execute_grid_trade(&Side::Buy, F64(600.0), F64(0.5), "BNBUSDT", Ok(resp("601", "0.25")))
        .unwrap();
    assert_eq!(r.exec_price, F64(601.0));
    assert_eq!(r.qty, F64(0.25));
    assert_eq!(r.value_usdt, F64(150.25));
    assert_eq!(r.slippage, F64(0.25));
    assert_eq!(r.binance_oid, Some(77));
    assert_eq!(r.id.len(), 36);
    assert_eq!(r.time.len(), 19);
    let r = t
        .execute_grid_trade(&Side::Buy, F64(600.0), F64(0.5), "BNBUSDT", Ok(resp("", "x")))
        .unwrap();
    assert_eq!((r.exec_price, r.qty), (F64(600.0), F64(0.5)));
    let failed = Err("request error".to_string());
    assert!(t.execute_grid_trade(&Side::Buy, F64(600.0), F64(0.5), "X", failed).is_none());
}

fn report(event: &str, status: &str) -> StreamEvent {
    StreamEvent::Report(WsExecutionReport {
        event_type: event.to_string(),
        symbol: "BNBUSDT".to_string(),
        order_id: 1,
        side: "BUY".to_string(),
        status: status.to_string(),
        last_qty: "1".to_string(),
        last_price: "2".to_string(),
        commission: "0".to_string(),
        commission_asset: None,
    })
}

#[test]
fn stream_forwards_fills() {
    let mut s = UserDataStream::new();
    assert!(matches!(s.on_event(StreamEvent::ConnectFailed), StreamAction::Reconnect(1)));
    assert!(matches!(s.on_event(StreamEvent::Ended), StreamAction::Reconnect(2)));
    assert!(matches!(s.on_event(StreamEvent::Connected), StreamAction::Read));
    assert!(matches!(
        s.on_event(report("executionReport", "FILLED")),
        StreamAction::Forward(_)
    ));
    assert!(matches!(
        s.on_event(report("executionReport", "PARTIALLY_FILLED")),
        StreamAction::Forward(_)
    ));
    assert!(matches!(s.on_event(report("executionReport", "NEW")), StreamAction::Read));
    assert!(matches!(s.on_event(report("balanceUpdate", "FILLED")), StreamAction::Read));
    assert!(matches!(s.on_event(StreamEvent::Other), StreamAction::Read));
    assert!(matches!(s.on_event(StreamEvent::Ended), StreamAction::Reconnect(1)));
}

// Copy trading

fn record() -> TradeRecord<F64> {
    TradeRecord {
        id: "id".to_string(),
        time: "t".to_string(),
        side: Side::Buy,
        symbol: "BNBUSDT".to_string(),
        price: F64(594.6),
        exec_price: F64(594.7557852),
        qty: F64(1.0),
        value_usdt: F64(1.0),
        slippage: F64(0.0),
        slip_mult: F64(1.0),
        trend_signal: "".to_string(),
        binance_oid: None,
    }
}

fn server() -> CopyTradeState<F64> {
    CopyTradeState::new("m".to_string(), F64(12.4), Some("topsecret".to_string()))
}

fn request(url: &str, paid_until: &str) -> RegisterRequest {
    RegisterRequest { webhook_url: url.to_string(), paid_until: paid_until.to_string() }
}

#[test]
fn followers_register() {
    let mut s = server();
    let r = s.handle_register(&request("https://a", "2025-06-30")).unwrap();
    assert_eq!(
        r.message,
        "Registered! Master will broadcast signals to https://a. Fee: 12% of profits."
    );
    assert_eq!(r.fee_pct, F64(12.4));
    assert_eq!(r.follower_id.len(), 36);
    assert_eq!(s.followers.len(), 1);
    assert_eq!(s.followers[0].id, r.follower_id);
    assert!(s.followers[0].active);
    assert_eq!(s.followers[0].registered.len(), 19);
    for url in ["", "ftp://a"] {
        let e = s.handle_register(&request(url, "2025-06-30")).unwrap_err();
        assert_eq!((e.code, e.error.as_str()), (400, "Invalid webhook_url"));
    }
    assert_eq!(s.followers.len(), 1);
}

#[test]
fn payments_need_the_token() {
    let mut s = server();
    s.register_as(&request("http://a", "2025-01-01"), "one".to_string(), "t".to_string()).unwrap();
    let pay = |id: &str, token: &str| FeeVerifyRequest {
        follower_id: id.to_string(),
        paid_until: "2030-01-01".to_string(),
        admin_token: token.to_string(),
    };
    assert_eq!(admin_token(None), "changeme");
    assert_eq!(admin_token(Some("t".to_string())), "t");
    let e = s.handle_verify_fee(&pay("one", "wrong"), "token").unwrap_err();
    assert_eq!((e.code, e.error.as_str()), (401, "Invalid admin token"));
    let e = s.handle_verify_fee(&pay("two", "token"), "token").unwrap_err();
    assert_eq!((e.code, e.error.as_str()), (404, "Follower not found"));
    assert_eq!(s.followers[0].paid_until, "2025-01-01");
    s.followers[0].active = false;
    assert!(s.handle_verify_fee(&pay("one", "token"), "token").is_ok());
    assert_eq!(s.followers[0].paid_until, "2030-01-01");
    assert!(s.followers[0].active);
}

#[test]
fn signals_go_to_those_who_paid() {
    let mut s = server();
    s.register_as(&request("http://a", "2025-01-02"), "a".to_string(), "t".to_string()).unwrap();
    s.register_as(&request("http://b", "2025-01-01"), "b".to_string(), "t".to_string()).unwrap();
    s.register_as(&request("http://c", "2026-01-01"), "c".to_string(), "t".to_string()).unwrap();
    s.followers[2].active = false;
    let stats = s.stats_on("2025-01-02");
    assert_eq!((stats.followers, stats.active_followers), (3, 1));
    let mut b = CopyBroadcast::new(s);
    let d = b.broadcast_at(&record(), "2025-01-02T03:04:05", "2025-01-02");
    assert_eq!(d.deliveries.len(), 1);
    assert_eq!(d.deliveries[0].follower_id, "a");
    assert_eq!(d.deliveries[0].webhook_url, "http://a");
    assert_eq!(d.signal.master_id, "m");
    assert_eq!(d.signal.symbol, "BNBUSDT");
    assert_eq!(d.signal.side, "BUY");
    assert_eq!(d.signal.price, F64(594.7557852));
    assert_eq!(d.signal.qty_pct, F64(0.09));
    assert_eq!(d.signal.timestamp, "2025-01-02T03:04:05");
    assert_eq!(d.signal.signal_hash, "3d913fac8e3acd43");
    assert_eq!(b.state.total_trades, 1);
    assert_eq!(b.state.signal_log.len(), 1);
}

#[test]
fn payment_brings_signals() {
    let mut s = server();
    s.register_as(&request("http://a", "2025-01-01"), "a".to_string(), "t".to_string()).unwrap();
    assert_eq!(s.stats_on("2025-02-01").active_followers, 0);
    let paid = FeeVerifyRequest {
        follower_id: "a".to_string(),
        paid_until: "2025-02-01".to_string(),
        admin_token: "token".to_string(),
    };
    s.handle_verify_fee(&paid, "token").unwrap();
    assert_eq!(s.stats_on("2025-02-01").active_followers, 1);
    assert_eq!(s.stats_on("2025-02-02").active_followers, 0);
    s.register_as(&request("http://b", "2025-02-02"), "b".to_string(), "t".to_string()).unwrap();
    assert_eq!(s.stats_on("2025-02-01").active_followers, 2);
}

#[test]
fn log_is_cut_and_statistics_show_the_newest() {
    let mut b = CopyBroadcast::new(server());
    for i in 0..1001_u64 {
        b.broadcast_at(&record(), &decimal(i), "2025-01-02");
    }
    assert_eq!(b.state.signal_log.len(), 501);
    assert_eq!(b.state.signal_log[0].timestamp, "500");
    assert_eq!(b.state.total_trades, 1001);
    let stats = b.state.handle_stats();
    assert_eq!(stats.master_id, "m");
    assert_eq!(stats.total_trades, 1001);
    assert_eq!(stats.recent_signals.len(), 10);
    assert_eq!(stats.recent_signals[0].timestamp, "1000");
    assert_eq!(stats.recent_signals[9].timestamp, "991");
    assert_eq!(stats.fee_pct, F64(12.4));
}

#[test]
fn broadcasts_carry_the_time() {
    let mut b = CopyBroadcast::new(server());
    b.state
        .register_as(&request("http://a", "9999-12-31"), "a".to_string(), "t".to_string())
        .unwrap();
    let d = b.broadcast(&record());
    assert_eq!(d.deliveries.len(), 1);
    assert_eq!(d.signal.timestamp.len(), 19);
    let today = d.signal.timestamp[..10].to_string();
    b.state.followers[0].paid_until = today;
    assert_eq!(b.broadcast(&record()).deliveries.len(), 1);
    b.state.followers[0].paid_until = "2000-01-01".to_string();
    assert!(b.broadcast(&record()).deliveries.is_empty());
    assert_eq!(d.signal.signal_hash.len(), 16);
}

#[test]
fn secrets_are_random_where_none_is_set() {
    let a = CopyTradeState::new("m".to_string(), F64(1.0), None);
    let b = CopyTradeState::new("m".to_string(), F64(1.0), None);
    assert_eq!(a.secret.len(), 36);
    assert_ne!(a.secret, b.secret);
    assert_eq!(server().secret, "topsecret");
}

#[test]
fn server_address_and_health() {
    assert_eq!(listen_address(8080), "0.0.0.0:8080");
    assert_eq!(health(), "SPD Grid Bot — OK");
}

#[test]
fn server_takes_up_another_name_and_fee() {
    let mut s = server();
    s.handle_register(&request("https://a.example/hook", "2999-01-01")).unwrap();
    let (secret, id) = (s.secret.clone(), s.followers[0].id.clone());
    s.reconfigure("other".to_string(), F64(33.0));
    assert_eq!((s.master_id.as_str(), s.fee_pct), ("other", F64(33.0)));
    assert_eq!((s.followers.len(), &s.followers[0].id, &s.secret), (1, &id, &secret));
    let r = s.handle_register(&request("https://b.example/hook", "2999-01-01")).unwrap();
    assert_eq!(r.fee_pct, F64(33.0));
}
