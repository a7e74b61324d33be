//! What the traffic with the exchange is for: what an order says, what is read from
//! the answers, and how the streams are kept up.
use vstd::prelude::*;

use crate::analyzer::{candles_address, candles_of, reads_candles, rest_for, status_fault};
use crate::exact::lemma_quot_undone;
use crate::models::{Candle, RawKline, Side, TradeRecord, WsExecutionReport};
use crate::network::{doubled, latency_of, wait_after, with_latency, FeedAction, FeedEvent};
use crate::network::{trades_address, PriceFeed, PriceUpdate, RateLimiter};
use crate::number::Value;
use crate::signing::{hex_text, signature};
use crate::text::{begins_with, ends_with, numeral};
use crate::trader::{account_params, base_asset_of, base_url, cancel_params, failure_of, free_of};
use crate::trader::{limit_order_params, notes_answer, records_order, signed_params};
use crate::trader::{tells_fill, updates_address};
use crate::trader::{Balance, BinanceTrader, OrderPlan, OrderResponse, Request, StreamAction};
use crate::trader::{StreamEvent, UserDataStream};

verus! {

// Numerals
/// What a decimal numeral is worth, digit by digit.
pub open spec fn worth_of(s: Seq<char>) -> int
    decreases s.len(),
{
    if s.len() == 0 {
        0
    } else {
        10 * worth_of(s.drop_last()) + (s.last() as int - 48)
    }
}

/// A number can be read from its numeral, which holds decimal digits alone; so two
/// numbers with one numeral are the same.
pub proof fn law_numeral_reads_back(n: nat, m: nat, i: int)
    ensures
        worth_of(numeral(n)) == n,
        numeral(n) == numeral(m) ==> n == m,
        0 <= i < numeral(n).len() ==> 48 <= numeral(n)[i] as int <= 57,
        numeral(n).len() > 0,
{
    lemma_numeral_is_worth_its_number(n, i);
    lemma_numeral_is_worth_its_number(m, i);
}

proof fn lemma_numeral_is_worth_its_number(n: nat, i: int)
    ensures
        worth_of(numeral(n)) == n,
        0 <= i < numeral(n).len() ==> 48 <= numeral(n)[i] as int <= 57,
        numeral(n).len() > 0,
    decreases n,
{
    reveal_with_fuel(worth_of, 2);
    if n < 10 {
        assert(numeral(n).drop_last() =~= Seq::empty());
    } else {
        lemma_numeral_is_worth_its_number(n / 10, i);
        assert(numeral(n).drop_last() =~= numeral(n / 10));
    }
}

// Orders
/// The text of an order begins with the symbol and the side, as the exchange has it.
proof fn lemma_order_text(
    symbol: Seq<char>,
    side: Side,
    qty: Seq<char>,
    price: Seq<char>,
    ts: u64,
)
    ensures
        ({
            let p = limit_order_params(symbol, side, qty, price, ts);
            let tail = "&type=LIMIT&timeInForce=GTC&quantity="@ + qty + "&price="@ + price
                + "&timestamp="@ + numeral(ts as nat);
            &&& p == "symbol="@ + symbol + "&side="@ + side.word() + tail
            &&& "symbol="@.len() == 7 && "&side="@.len() == 6
            &&& side is Buy ==> side.word() == seq!['B', 'U', 'Y']
            &&& side is Sell ==> side.word() == seq!['S', 'E', 'L', 'L']
        }),
{
    reveal_strlit("symbol=");
    reveal_strlit("&side=");
    reveal_strlit("BUY");
    reveal_strlit("SELL");
    assert("BUY"@ =~= seq!['B', 'U', 'Y']);
    assert("SELL"@ =~= seq!['S', 'E', 'L', 'L']);
    let tail = "&type=LIMIT&timeInForce=GTC&quantity="@ + qty + "&price="@ + price + "&timestamp="@
        + numeral(ts as nat);
    assert(limit_order_params(symbol, side, qty, price, ts) =~= "symbol="@ + symbol + "&side="@
        + side.word() + tail);
}

/// An order says its side: behind the symbol stands the word of a buy exactly for a buy
/// and that of a sell exactly for a sell, so the side can be read back, and orders that
/// differ in it differ.
pub proof fn law_order_says_its_side(
    symbol: Seq<char>,
    side: Side,
    other: Side,
    qty: Seq<char>,
    price: Seq<char>,
    ts: u64,
)
    ensures
        ({
            let p = limit_order_params(symbol, side, qty, price, ts);
            let head = "symbol="@ + symbol + "&side="@;
            &&& begins_with(p, head + seq!['B', 'U', 'Y']) <==> side is Buy
            &&& begins_with(p, head + seq!['S', 'E', 'L', 'L']) <==> side is Sell
            &&& p == limit_order_params(symbol, other, qty, price, ts) ==> side == other
        }),
{
    let head = "symbol="@ + symbol + "&side="@;
    let (b, s) = (seq!['B', 'U', 'Y'], seq!['S', 'E', 'L', 'L']);
    lemma_order_text(symbol, side, qty, price, ts);
    lemma_order_text(symbol, other, qty, price, ts);
    let p = limit_order_params(symbol, side, qty, price, ts);
    let q = limit_order_params(symbol, other, qty, price, ts);
    let n = head.len() as int;
    assert(p[n] == side.word()[0]);
    assert(q[n] == other.word()[0]);
    if side is Buy {
        assert(p.take(n + 3) =~= head + b);
        assert((head + s)[n] == 'S');
        if begins_with(p, head + s) {
            assert(p.take(n + 4)[n] == 'S');
        }
    } else {
        assert(p.take(n + 4) =~= head + s);
        assert((head + b)[n] == 'B');
        if begins_with(p, head + b) {
            assert(p.take(n + 3)[n] == 'B');
        }
    }
}

/// An order says what it is for: a limit order until it is cancelled, with its quantity,
/// its price and the time, in that order, at the end.
pub proof fn law_order_says_quantity_and_price(
    symbol: Seq<char>,
    side: Side,
    qty: Seq<char>,
    price: Seq<char>,
    ts: u64,
)
    ensures
        ends_with(
            limit_order_params(symbol, side, qty, price, ts),
            "&type=LIMIT&timeInForce=GTC&quantity="@ + qty + "&price="@ + price + "&timestamp="@
                + numeral(ts as nat),
        ),
{
    lemma_order_text(symbol, side, qty, price, ts);
    let p = limit_order_params(symbol, side, qty, price, ts);
    let tail = "&type=LIMIT&timeInForce=GTC&quantity="@ + qty + "&price="@ + price + "&timestamp="@
        + numeral(ts as nat);
    assert(p.skip(p.len() - tail.len()) =~= tail);
}

/// A cancellation names the symbol, then the order, then the time, and one of another
/// order is another text.
pub proof fn law_cancellation_names_its_order(
    symbol: Seq<char>,
    order_id: u64,
    other: u64,
    ts: u64,
)
    ensures
        begins_with(
            cancel_params(symbol, order_id, ts),
            "symbol="@ + symbol + "&orderId="@ + numeral(order_id as nat) + "&timestamp="@,
        ),
        ends_with(cancel_params(symbol, order_id, ts), "&timestamp="@ + numeral(ts as nat)),
        cancel_params(symbol, order_id, ts) == cancel_params(symbol, other, ts) ==> order_id
            == other,
        account_params(ts) == "timestamp="@ + numeral(ts as nat),
{
    let head = "symbol="@ + symbol + "&orderId="@;
    let (p, q) = (cancel_params(symbol, order_id, ts), cancel_params(symbol, other, ts));
    let (a, b) = (numeral(order_id as nat), numeral(other as nat));
    let tail = "&timestamp="@ + numeral(ts as nat);
    assert(p =~= head + a + tail);
    assert(q =~= head + b + tail);
    let start = head + a + "&timestamp="@;
    assert(p.take(start.len() as int) =~= start);
    assert(p.skip(p.len() - tail.len()) =~= tail);
    if p == q {
        let n = head.len() as int;
        assert(p.len() == n + a.len() + tail.len());
        assert(q.len() == n + b.len() + tail.len());
        assert(p.subrange(n, n + a.len()) =~= a);
        assert(q.subrange(n, n + b.len()) =~= b);
        law_numeral_reads_back(order_id as nat, other as nat, 0);
    }
}

/// A signed text is the text and behind it the signature of just that text under the
/// secret.
pub proof fn law_signature_is_of_the_text_before_it(secret: Seq<char>, params: Seq<char>)
    ensures
        begins_with(signed_params(secret, params), params + "&signature="@),
        ends_with(signed_params(secret, params), "&signature="@ + signature(secret, params)),
        signed_params(secret, params).len() == params.len() + "&signature="@.len() + signature(
            secret,
            params,
        ).len(),
{
    let all = signed_params(secret, params);
    let mark = "&signature="@;
    let sig = signature(secret, params);
    assert(all =~= params + mark + sig);
    assert(all.take((params + mark).len() as int) =~= params + mark);
    assert(all.skip(all.len() - (mark + sig).len()) =~= mark + sig);
}

/// A limit order is posted to the exchange with the trader's key, its side, and the
/// quantity and price in four places; a dry run sends nothing and answers with what was
/// asked for.
pub proof fn law_limit_order_is_sent_as_asked<S: Value>(
    trader: BinanceTrader,
    plan: OrderPlan,
    side: Side,
    quantity: S,
    price: S,
    ts: u64,
)
    requires
        trader.plans_limit_order(plan, side, quantity, price, ts),
    ensures
        plan is Send <==> !trader.dry_run,
        plan matches OrderPlan::Send(request) ==> {
            let head = "symbol="@ + trader.symbol@ + "&side="@;
            &&& request.method is Post
            &&& ends_with(request.url@, "/api/v3/order"@)
            &&& request.api_key matches Some(key) && key@ == trader.api_key@
            &&& request.body matches Some(body) && {
                &&& begins_with(body@, head + seq!['B', 'U', 'Y']) <==> side is Buy
                &&& begins_with(body@, head + seq!['S', 'E', 'L', 'L']) <==> side is Sell
                &&& exists|params: Seq<char>|
                    {
                        &&& ends_with(
                            params,
                            "&quantity="@ + quantity.digits(4) + "&price="@ + price.digits(4)
                                + "&timestamp="@ + numeral(ts as nat),
                        )
                        &&& #[trigger] signed_params(trader.api_secret@, params) == body@
                    }
            }
        },
        plan matches OrderPlan::DryRun(resp) ==> {
            &&& resp.symbol@ == trader.symbol@
            &&& resp.executed_qty@ == quantity.digits(4)
            &&& resp.price@ == price.digits(4)
            &&& resp.order_id == 0
        },
{
    let params = limit_order_params(
        trader.symbol@,
        side,
        quantity.digits(4),
        price.digits(4),
        ts,
    );
    let secret = trader.api_secret@;
    law_order_says_its_side(
        trader.symbol@,
        side,
        side,
        quantity.digits(4),
        price.digits(4),
        ts,
    );
    law_signature_is_of_the_text_before_it(secret, params);
    if let OrderPlan::Send(request) = plan {
        let url = request.url@;
        let path = "/api/v3/order"@;
        assert(url.skip(url.len() - path.len()) =~= path);
        let body = signed_params(secret, params);
        let head = "symbol="@ + trader.symbol@ + "&side="@;
        lemma_order_text(trader.symbol@, side, quantity.digits(4), price.digits(4), ts);
        reveal_strlit("&type=LIMIT&timeInForce=GTC&quantity=");
        assert(body.take(params.len() as int) =~= params);
        lemma_prefix_of_prefix(body, params, head + seq!['B', 'U', 'Y']);
        lemma_prefix_of_prefix(body, params, head + seq!['S', 'E', 'L', 'L']);
        reveal_strlit("&quantity=");
        let tail = "&quantity="@ + quantity.digits(4) + "&price="@ + price.digits(4)
            + "&timestamp="@ + numeral(ts as nat);
        assert("&type=LIMIT&timeInForce=GTC&quantity="@.skip(27) =~= "&quantity="@);
        assert(params.skip(params.len() - tail.len()) =~= tail);
    }
}

/// What begins a text that another begins with begins that one too, and nothing of its
/// length else does.
proof fn lemma_prefix_of_prefix(all: Seq<char>, front: Seq<char>, head: Seq<char>)
    requires
        begins_with(all, front),
        head.len() <= front.len(),
    ensures
        begins_with(all, head) <==> begins_with(front, head),
{
    let n = head.len() as int;
    assert(all.take(n) =~= front.take(n)) by {
        assert forall|i: int| 0 <= i < n implies all[i] == front[i] by {
            assert(all.take(front.len() as int)[i] == front[i]);
        }
    }
}

/// A cancellation is sent as a deletion with the trader's key and the order's number; a
/// dry run sends none.
pub proof fn law_cancellation_is_sent_as_asked(
    trader: BinanceTrader,
    plan: Option<Request>,
    order_id: u64,
    ts: u64,
)
    requires
        trader.plans_cancellation(plan, order_id, ts),
    ensures
        plan is Some <==> !trader.dry_run,
        plan matches Some(request) ==> {
            &&& request.method is Delete
            &&& ends_with(request.url@, "/api/v3/order"@)
            &&& request.api_key matches Some(key) && key@ == trader.api_key@
            &&& request.body matches Some(body) && begins_with(
                body@,
                "symbol="@ + trader.symbol@ + "&orderId="@ + numeral(order_id as nat)
                    + "&timestamp="@,
            )
        },
{
    if let Some(request) = plan {
        let url = request.url@;
        let path = "/api/v3/order"@;
        assert(url.skip(url.len() - path.len()) =~= path);
        let params = cancel_params(trader.symbol@, order_id, ts);
        let secret = trader.api_secret@;
        law_cancellation_names_its_order(trader.symbol@, order_id, order_id, ts);
        law_signature_is_of_the_text_before_it(secret, params);
        let body = signed_params(secret, params);
        assert(begins_with(body, params)) by {
            assert(body.take(params.len() as int) =~= params);
        }
        lemma_prefix_of_prefix(
            body,
            params,
            "symbol="@ + trader.symbol@ + "&orderId="@ + numeral(order_id as nat) + "&timestamp="@,
        );
    }
}

/// Two hexadecimal digits tell a byte: the first its high half, the second its low one.
pub proof fn law_hex_tells_bytes(bytes: Seq<u8>, i: int)
    requires
        0 <= i < bytes.len(),
    ensures
        hex_text(bytes).len() == 2 * bytes.len(),
        ({
            let (a, b) = (hex_text(bytes)[2 * i] as int, hex_text(bytes)[2 * i + 1] as int);
            let high = if a < 58 {
                a - 48
            } else {
                a - 87
            };
            let low = if b < 58 {
                b - 48
            } else {
                b - 87
            };
            bytes[i] == 16 * high + low
        }),
{
}

// Answers
/// The base asset of a pair is what stands before its quote currency.
pub proof fn law_base_asset_is_the_pair_without_its_quote(base: Seq<char>)
    ensures
        base_asset_of(base + "USDT"@) == base,
        base_asset_of(base + "BTC"@) == base,
        base_asset_of(base + "ETH"@) == base,
        !ends_with(base, "USDT"@) && !ends_with(base, "BTC"@) && !ends_with(base, "ETH"@)
            ==> base_asset_of(base) == base,
{
    reveal_strlit("USDT");
    reveal_strlit("BTC");
    reveal_strlit("ETH");
    let (u, b, e) = (base + "USDT"@, base + "BTC"@, base + "ETH"@);
    assert(u.skip(base.len() as int) =~= "USDT"@);
    assert(u.take(base.len() as int) =~= base);
    assert(b.skip(base.len() as int) =~= "BTC"@);
    assert(b.take(base.len() as int) =~= base);
    assert(e.skip(base.len() as int) =~= "ETH"@);
    assert(e.take(base.len() as int) =~= base);
    if ends_with(b, "USDT"@) {
        assert(b.skip(b.len() - 4)[3] == 'T');
        assert(b[b.len() - 1] == 'C');
    }
    if ends_with(e, "USDT"@) {
        assert(e.skip(e.len() - 4)[3] == 'T');
        assert(e[e.len() - 1] == 'H');
    }
    if ends_with(e, "BTC"@) {
        assert(e.skip(e.len() - 3)[2] == 'C');
        assert(e[e.len() - 1] == 'H');
    }
}

/// What is free of an asset is read from its first balance; of an asset without one,
/// or with one that cannot be read, nothing is.
pub proof fn law_first_balance_counts<S: Value>(balances: Seq<Balance>, asset: Seq<char>, i: int)
    requires
        0 <= i <= balances.len(),
        forall|j: int| 0 <= j < i ==> (#[trigger] balances[j]).asset@ != asset,
        i < balances.len() ==> balances[i].asset@ == asset,
    ensures
        i == balances.len() ==> free_of::<S>(balances, asset) == S::count(0),
        i < balances.len() ==> match S::reading(balances[i].free@) {
            Some(x) => free_of::<S>(balances, asset) == x,
            None => free_of::<S>(balances, asset) == S::count(0),
        },
    decreases balances.len(),
{
    if i > 0 {
        let rest = balances.skip(1);
        assert(balances[0].asset@ != asset);
        assert forall|j: int| 0 <= j < i - 1 implies (#[trigger] rest[j]).asset@ != asset by {
            assert(balances[j + 1].asset@ != asset);
        }
        law_first_balance_counts::<S>(rest, asset, i - 1);
    }
}

/// Without rounding, the record of an order has the executed price and quantity where
/// they can be read and the asked ones elsewhere, their product as value, and the
/// distance from the level, times the quantity, as slippage.
pub proof fn law_order_record_tells_the_answer(
    r: TradeRecord<real>,
    resp: OrderResponse,
    side: Side,
    grid_price: real,
    quantity: real,
    symbol: Seq<char>,
)
    requires
        records_order(r, resp, side, grid_price, quantity, symbol),
    ensures
        r.side == side,
        r.symbol@ == symbol,
        r.price == grid_price,
        match real::reading(resp.price@) {
            Some(x) => r.exec_price == x,
            None => r.exec_price == grid_price,
        },
        match real::reading(resp.executed_qty@) {
            Some(x) => r.qty == x,
            None => r.qty == quantity,
        },
        r.value_usdt == r.exec_price * r.qty,
        r.exec_price >= grid_price ==> r.slippage == (r.exec_price - grid_price) * r.qty,
        r.exec_price <= grid_price ==> r.slippage == (grid_price - r.exec_price) * r.qty,
        r.binance_oid == Some(resp.order_id),
        r.slip_mult == 1 as real,
        r.trend_signal@.len() == 0,
{
    reveal_strlit("");
    assert(r.qty * r.exec_price == r.exec_price * r.qty) by (nonlinear_arith);
}

/// A report tells a fill if and only if it is an execution report whose status is filled
/// or partially filled; orders that are new, cancelled, rejected or expired tell none.
pub proof fn law_only_fills_are_fills(report: WsExecutionReport)
    ensures
        report.event_type@ == "executionReport"@ && report.status@ == "FILLED"@ ==> tells_fill(
            report,
        ),
        report.event_type@ == "executionReport"@ && report.status@ == "PARTIALLY_FILLED"@
            ==> tells_fill(report),
        report.event_type@ != "executionReport"@ ==> !tells_fill(report),
        report.status@ == "NEW"@ ==> !tells_fill(report),
        report.status@ == "CANCELED"@ ==> !tells_fill(report),
        report.status@ == "REJECTED"@ ==> !tells_fill(report),
        report.status@ == "EXPIRED"@ ==> !tells_fill(report),
        report.status@ != "FILLED"@ && report.status@ != "PARTIALLY_FILLED"@ ==> !tells_fill(
            report,
        ),
{
    reveal_strlit("FILLED");
    reveal_strlit("PARTIALLY_FILLED");
    reveal_strlit("NEW");
    reveal_strlit("CANCELED");
    reveal_strlit("REJECTED");
    reveal_strlit("EXPIRED");
    assert("FILLED"@.len() == 6 && "PARTIALLY_FILLED"@.len() == 16 && "NEW"@.len() == 3
        && "CANCELED"@.len() == 8 && "REJECTED"@.len() == 8 && "EXPIRED"@.len() == 7);
}

/// The stream of order updates hands on every fill as it came and nothing else; it
/// reconnects after every end, and a connection makes the next wait a second.
pub proof fn law_stream_hands_on_fills(
    before: UserDataStream,
    event: StreamEvent,
    after: UserDataStream,
    action: StreamAction,
)
    requires
        before.takes_event(event, after, action),
    ensures
        action is Forward <==> (event matches StreamEvent::Report(report) && tells_fill(report)),
        action matches StreamAction::Forward(told) ==> event == StreamEvent::Report(told),
        action is Reconnect <==> event is ConnectFailed || event is Ended,
        action matches StreamAction::Reconnect(secs) ==> secs == before.next_wait() as u64,
        event is Connected ==> after.next_wait() == 1,
        action is Reconnect ==> after.next_wait() >= before.next_wait() || after.next_wait() == 60,
        event is Report || event is Other ==> after.next_wait() == before.next_wait(),
{
}

// Waits
/// The waits after failures in a row are one, two, four, eight, sixteen and thirty-two
/// seconds, and then a minute each.
pub proof fn law_waits_double_to_a_minute(failures: nat)
    ensures
        wait_after(0) == 1,
        wait_after(1) == 2,
        wait_after(2) == 4,
        wait_after(3) == 8,
        wait_after(4) == 16,
        wait_after(5) == 32,
        failures >= 6 ==> wait_after(failures) == 60,
    decreases failures,
{
    reveal_with_fuel(wait_after, 8);
    if failures > 6 {
        law_waits_double_to_a_minute((failures - 1) as nat);
    }
}

/// A wait is followed by one twice as long, or by a minute where that is less.
pub proof fn law_next_wait_is_twice_as_long(secs: nat)
    ensures
        doubled(secs) <= 2 * secs,
        doubled(secs) <= 60,
        doubled(secs) == 2 * secs || doubled(secs) == 60,
{
    if secs < 30 {
        assert(doubled(secs) == 2 * secs);
    }
}

/// Without rounding, a bucket fills at its rate up to its capacity and no further.
pub proof fn law_bucket_fills_at_its_rate(bucket: RateLimiter<real>, elapsed: real)
    ensures
        bucket.refilled(elapsed) <= bucket.capacity(),
        bucket.refilled(elapsed) <= bucket.left() + elapsed * bucket.rate(),
        bucket.refilled(elapsed) == bucket.capacity() || bucket.refilled(elapsed) == bucket.left()
            + elapsed * bucket.rate(),
{
}

/// Without rounding, a token is given where there is one, and costs one; where there is
/// none, the wait is just long enough for it to come.
pub proof fn law_wait_is_just_long_enough(
    bucket: RateLimiter<real>,
    elapsed: real,
    after: RateLimiter<real>,
    wait: Option<u64>,
)
    requires
        bucket.gives_token(elapsed, after, wait),
        bucket.rate() >= 1 as real,
        bucket.refilled(elapsed) >= 0 as real,
    ensures
        after.capacity() == bucket.capacity(),
        after.rate() == bucket.rate(),
        wait is None <==> bucket.refilled(elapsed) >= 1 as real,
        wait is None ==> after.left() + 1 as real == bucket.refilled(elapsed),
        wait matches Some(ms) ==> {
            &&& after.left() == bucket.refilled(elapsed)
            &&& ms >= 1
            &&& (ms as real) * bucket.rate() > 1000 as real * (1 as real - after.left())
            &&& ((ms - 1) as real) * bucket.rate() <= 1000 as real * (1 as real - after.left())
        },
{
    let tokens = bucket.refilled(elapsed);
    let rate = bucket.rate();
    if tokens < 1 as real {
        let lack = 1 as real - tokens;
        let q = lack / rate;
        lemma_quot_undone(lack, rate);
        let x = q * 1000 as real;
        assert(x >= 0 as real && x <= 1000 as real && x * rate == 1000 as real * lack)
            by (nonlinear_arith)
            requires
                q * rate == lack,
                x == q * 1000 as real,
                lack > 0 as real,
                lack <= 1 as real,
                rate >= 1 as real,
        ;
        let n = x.floor();
        assert(n as real <= x && x < (n + 1) as real);
        assert(0 <= n <= 1000);
        let ms = wait->0;
        assert(ms == n + 1);
        let (a, b) = (n as real, (n + 1) as real);
        assert(b * rate > x * rate && a * rate <= x * rate) by (nonlinear_arith)
            requires
                a <= x,
                x < b,
                rate >= 1 as real,
        ;
    }
}

// The price feed
/// The feed hands on the price of every trade that can be read, and notes how long it
/// was under way; it reconnects after every failure and reads on after anything else.
pub proof fn law_feed_hands_on_prices<S: Value>(
    before: PriceFeed,
    event: FeedEvent,
    after: PriceFeed,
    action: FeedAction<S>,
)
    requires
        before.takes_event(event, after, action),
        1 <= before.next_wait() <= 60,
    ensures
        action is Publish <==> (event matches FeedEvent::Trade { trade, .. } && S::reading(
            trade.price@,
        ) is Some),
        action matches FeedAction::Publish(price) ==> (event matches FeedEvent::Trade { trade, .. }
            && S::reading(trade.price@) == Some(price)),
        action is Reconnect <==> event is ConnectFailed || event is Closed || event is Ended
            || event is ReadFailed,
        action matches FeedAction::Reconnect(secs) ==> if event is ReadFailed {
            secs > before.next_wait()
        } else {
            secs == before.next_wait()
        },
        event is Connected ==> after.next_wait() == 1,
        event is Trade || event is Other ==> after.next_wait() == before.next_wait(),
        event is ConnectFailed || event is Closed || event is Ended ==> after.next_wait()
            == if before.next_wait() < 30 {
            2 * before.next_wait()
        } else {
            60
        },
        after.size() == before.size(),
{
}

/// The latencies keep the newest in order: a new one comes last, the others stay as they
/// were, and the oldest leaves where there is no room.
pub proof fn law_latencies_keep_the_newest(latencies: Seq<u64>, latency: u64, size: usize, i: int)
    requires
        0 < size,
        latencies.len() <= size,
    ensures
        ({
            let after = with_latency(latencies, latency, size);
            &&& after.last() == latency
            &&& latencies.len() < size ==> after.len() == latencies.len() + 1 && (0 <= i
                < latencies.len() ==> after[i] == latencies[i])
            &&& latencies.len() == size ==> after.len() == size && (0 < i < latencies.len()
                ==> after[i - 1] == latencies[i])
        }),
{
}

/// A latency is what lies between the trade and its arrival, and a price is as old as
/// the time since it came; where the clock stands before it, both are nothing.
pub proof fn law_ages_are_the_time_since<S: Value>(update: PriceUpdate<S>, now: u64, sent: u64)
    ensures
        sent <= now ==> sent + latency_of(sent, now) == now,
        now < sent ==> latency_of(sent, now) == 0,
        update.received <= now ==> update.received + update.age(now) == now,
        now < update.received ==> update.age(now) == 0,
{
}

/// Requests go to the exchange: the price is asked for without a key, the account with
/// the trader's key and a signature, and a stream key is made and renewed with the
/// trader's key.
pub proof fn law_requests_go_to_the_exchange(
    trader: BinanceTrader,
    price: Request,
    account: Request,
    ts: u64,
    made: Request,
    renewed: Request,
    key: Seq<char>,
)
    requires
        trader.asks_price(price),
        trader.asks_account(account, ts),
        trader.asks_stream_key(made),
        trader.renews_stream_key(renewed, key),
    ensures
        price.method is Get && account.method is Get,
        made.method is Post && renewed.method is Put,
        price.body is None && account.body is None && made.body is None && renewed.body is None,
        price.api_key is None,
        account.api_key matches Some(k) && k@ == trader.api_key@,
        made.api_key matches Some(k) && k@ == trader.api_key@,
        renewed.api_key matches Some(k) && k@ == trader.api_key@,
        begins_with(price.url@, "https://api.binance.com/api/v3/ticker/price?symbol="@),
        ends_with(price.url@, trader.symbol@),
        begins_with(
            account.url@,
            "https://api.binance.com/api/v3/account?timestamp="@ + numeral(ts as nat)
                + "&signature="@,
        ),
        made.url@ == "https://api.binance.com/api/v3/userDataStream"@,
        renewed.url@ == made.url@ + "?listenKey="@ + key,
{
    reveal_strlit("https://api.binance.com");
    reveal_strlit("/api/v3/ticker/price?symbol=");
    reveal_strlit("https://api.binance.com/api/v3/ticker/price?symbol=");
    reveal_strlit("/api/v3/account?");
    reveal_strlit("timestamp=");
    reveal_strlit("https://api.binance.com/api/v3/account?timestamp=");
    reveal_strlit("/api/v3/userDataStream");
    reveal_strlit("https://api.binance.com/api/v3/userDataStream");
    reveal_strlit("/api/v3/userDataStream?listenKey=");
    reveal_strlit("?listenKey=");
    let asked = "https://api.binance.com/api/v3/ticker/price?symbol="@;
    assert(asked =~= base_url() + "/api/v3/ticker/price?symbol="@);
    assert(price.url@ =~= asked + trader.symbol@);
    assert(price.url@.take(asked.len() as int) =~= asked);
    assert(price.url@.skip(price.url@.len() - trader.symbol@.len()) =~= trader.symbol@);
    let told = "https://api.binance.com/api/v3/account?timestamp="@;
    assert(told =~= base_url() + "/api/v3/account?"@ + "timestamp="@);
    let front = told + numeral(ts as nat) + "&signature="@;
    law_signature_is_of_the_text_before_it(trader.api_secret@, account_params(ts));
    assert(account.url@.take(front.len() as int) =~= front);
    assert(made.url@ =~= "https://api.binance.com/api/v3/userDataStream"@);
    assert(renewed.url@ =~= made.url@ + "?listenKey="@ + key);
}

/// An answer is a failure if and only if its code is not one of the two hundreds, and
/// then the error tells the status and the text.
pub proof fn law_failures_are_told(code: u16, status: Seq<char>, text: Seq<char>)
    ensures
        failure_of(code, status, text) is None <==> code / 100 == 2,
        failure_of(code, status, text) matches Some(e) ==> {
            &&& begins_with(e, "HTTP "@ + status)
            &&& ends_with(e, text)
        },
        status_fault(code, status) is None <==> code / 100 == 2,
        status_fault(code, status) matches Some(e) ==> if code == 429 {
            e == "429 Rate limit"@
        } else if code == 403 {
            e == "403 Forbidden"@
        } else {
            begins_with(e, "HTTP "@) && ends_with(e, status)
        },
{
    if let Some(e) = failure_of(code, status, text) {
        let front = "HTTP "@ + status;
        assert(e.take(front.len() as int) =~= front);
        assert(e.skip(e.len() - text.len()) =~= text);
    }
    let e = "HTTP "@ + status;
    assert(e.take("HTTP "@.len() as int) =~= "HTTP "@);
    assert(e.skip(e.len() - status.len()) =~= status);
}

/// After more than a thousand units of weight in a minute requests rest for five seconds,
/// and after fewer, or where none are told, they do not.
pub proof fn law_heavy_use_rests(used: Option<u32>)
    ensures
        rest_for(used) is Some <==> used is Some && used->0 > 1000,
        rest_for(used) matches Some(secs) ==> secs == 5,
{
}

/// An answer is read as candles exactly where at least twenty-one are sound; else the
/// error tells how many are.
pub proof fn law_too_few_candles_are_refused<S: Value>(
    raw: Seq<RawKline>,
    cap_pct: S,
    r: Result<Vec<Candle<S>>, String>,
)
    requires
        reads_candles(raw, cap_pct, r),
    ensures
        r is Ok <==> candles_of(raw, cap_pct).len() >= 21,
        r matches Ok(candles) ==> candles@ == candles_of(raw, cap_pct),
        r matches Err(e) ==> {
            let front = "Insufficient candles: "@;
            &&& begins_with(e@, front)
            &&& worth_of(e@.skip(front.len() as int)) == candles_of(raw, cap_pct).len()
        },
{
    if let Err(e) = r {
        let front = "Insufficient candles: "@;
        let n = candles_of(raw, cap_pct).len();
        assert(e@.take(front.len() as int) =~= front);
        assert(e@.skip(front.len() as int) =~= numeral(n));
        law_numeral_reads_back(n, n, 0);
    }
}

/// The first of the two balances is that of the quote currency, the second that of the
/// asset it buys.
pub proof fn law_balances_are_of_quote_and_base<S: Value>(
    trader: BinanceTrader,
    balances: Seq<Balance>,
)
    ensures
        trader.free_balances::<S>(balances).0 == free_of::<S>(balances, seq!['U', 'S', 'D', 'T']),
        trader.free_balances::<S>(balances).1 == free_of::<S>(
            balances,
            base_asset_of(trader.symbol@),
        ),
{
    reveal_strlit("USDT");
    assert("USDT"@ =~= seq!['U', 'S', 'D', 'T']);
}

/// An order that was placed is recorded with its side and symbol, and one that failed is
/// not.
pub proof fn law_placed_orders_are_recorded<S: Value>(
    r: Option<TradeRecord<S>>,
    answer: Result<OrderResponse, String>,
    side: Side,
    grid_price: S,
    quantity: S,
    symbol: Seq<char>,
)
    requires
        notes_answer(r, answer, side, grid_price, quantity, symbol),
    ensures
        r is Some <==> answer is Ok,
        r matches Some(record) ==> {
            &&& records_order(record, answer->Ok_0, side, grid_price, quantity, symbol)
            &&& record.side == side && record.symbol@ == symbol && record.price == grid_price
        },
{
}

/// A price is stale if and only if more time has passed since it came than it may.
pub proof fn law_prices_grow_stale<S: Value>(p: PriceUpdate<S>, now: u64, max_age_ms: u64)
    requires
        p.received <= now,
    ensures
        p.is_older(now, max_age_ms) <==> p.received + max_age_ms < now,
        !p.is_older(p.received, max_age_ms),
{
}

/// A new bucket is full: as many requests go out at once as it has for a second.
pub proof fn law_new_bucket_is_full(b: RateLimiter<real>, rps: u64)
    requires
        b.is_full_for(rps),
    ensures
        b.left() == rps as real && b.capacity() == rps as real && b.rate() == rps as real,
        b.refilled(0 as real) == rps as real,
{
    assert(0 as real * b.rate() == 0 as real) by (nonlinear_arith);
}

/// The addresses at the exchange: candles by symbol, interval and number, the trades of
/// a symbol, and the order updates under a key.
pub proof fn law_addresses_name_what_is_asked(
    symbol: Seq<char>,
    interval: Seq<char>,
    limit: nat,
    key: Seq<char>,
)
    ensures
        ({
            let a = candles_address(symbol, interval, limit);
            &&& begins_with(
                a,
                "https://api.binance.com/api/v3/klines?symbol="@ + symbol + "&interval="@
                    + interval,
            )
            &&& ends_with(a, "&limit="@ + numeral(limit))
        }),
        begins_with(trades_address(symbol), "wss://stream.binance.com:9443/ws/"@ + symbol),
        ends_with(trades_address(symbol), "@aggTrade"@),
        updates_address(key + "@aggTrade"@) == trades_address(key),
{
    let a = candles_address(symbol, interval, limit);
    let front = "https://api.binance.com/api/v3/klines?symbol="@ + symbol + "&interval="@
        + interval;
    let back = "&limit="@ + numeral(limit);
    assert(a.take(front.len() as int) =~= front);
    assert(a.skip(a.len() - back.len()) =~= back);
    let t = trades_address(symbol);
    let head = "wss://stream.binance.com:9443/ws/"@ + symbol;
    assert(t.take(head.len() as int) =~= head);
    assert(t.skip(t.len() - "@aggTrade"@.len()) =~= "@aggTrade"@);
    assert(updates_address(key + "@aggTrade"@) =~= trades_address(key));
}

} // verus!
