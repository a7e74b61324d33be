//! Orders at the exchange: the signed requests, what is read from the answers,
//! and the stream of order updates.
use vstd::prelude::*;

use crate::models::{Side, TradeRecord, WsExecutionReport};
use crate::network::{doubled, Backoff};
use crate::number::{Number, Value};
use crate::signing::{sign_payload, signature};
use crate::stamp::{is_random_id, is_time, random_id, timestamp};
use crate::text::{decimal, ends_with, numeral, same_text, strip_end};

verus! {

// Answers of the exchange
#[derive(Debug, Clone)]
pub struct OrderResponse {
    pub symbol: String,
    pub order_id: u64,
    pub status: String,
    pub executed_qty: String,
    pub cumulative_quote_qty: String,
    pub price: String,
}

#[derive(Debug, Clone)]
pub struct AccountInfo {
    pub balances: Vec<Balance>,
}

#[derive(Debug, Clone)]
pub struct Balance {
    pub asset: String,
    pub free: String,
    pub locked: String,
}

#[derive(Debug, Clone)]
pub struct TickerPrice {
    pub symbol: String,
    pub price: String,
}

#[derive(Debug, Clone)]
pub struct ListenKeyResponse {
    pub listen_key: String,
}

// Requests
#[derive(Debug, Clone, Copy, PartialEq, Eq, Structural)]
pub enum Method {
    Get,
    Post,
    Put,
    Delete,
}

/// A request to the exchange. With a key it carries the key's header, with a
/// body the body as a form.
#[derive(Debug, Clone)]
pub struct Request {
    pub method: Method,
    pub url: String,
    pub api_key: Option<String>,
    pub body: Option<String>,
}

/// What to do with an order.
#[derive(Debug, Clone)]
pub enum OrderPlan {
    /// Nothing is sent; this is the answer.
    DryRun(OrderResponse),
    Send(Request),
}

/// The address of the exchange.
pub open spec fn base_url() -> Seq<char> {
    "https://api.binance.com"@
}

/// An address at the exchange.
fn url_of(path: &str) -> (r: String)
    ensures
        r@ == base_url() + path@,
{
    let mut r = "https://api.binance.com".to_owned();
    r.append(path);
    r
}

/// Parameters with their signature.
pub open spec fn signed_params(secret: Seq<char>, params: Seq<char>) -> Seq<char> {
    params + "&signature="@ + signature(secret, params)
}

fn with_signature(secret: &str, params: &str) -> (r: String)
    ensures
        r@ == signed_params(secret@, params@),
{
    let sig = sign_payload(secret, params);
    let mut r = params.to_owned();
    r.append("&signature=");
    r.append(sig.as_str());
    r
}

/// The parameters of a limit order that stays until it is cancelled.
pub open spec fn limit_order_params(
    symbol: Seq<char>,
    side: Side,
    qty: Seq<char>,
    price: Seq<char>,
    ts: u64,
) -> Seq<char> {
    "symbol="@ + symbol + "&side="@ + side.word() + "&type=LIMIT&timeInForce=GTC&quantity="@ + qty
        + "&price="@ + price + "&timestamp="@ + numeral(ts as nat)
}

/// The parameters of a cancellation.
pub open spec fn cancel_params(symbol: Seq<char>, order_id: u64, ts: u64) -> Seq<char> {
    "symbol="@ + symbol + "&orderId="@ + numeral(order_id as nat) + "&timestamp="@ + numeral(
        ts as nat,
    )
}

/// The parameters of a request for the account.
pub open spec fn account_params(ts: u64) -> Seq<char> {
    "timestamp="@ + numeral(ts as nat)
}

/// The asset that a symbol trades against its quote currency: the symbol without
/// the quote at its end.
pub open spec fn base_asset_of(symbol: Seq<char>) -> Seq<char> {
    if ends_with(symbol, "USDT"@) {
        symbol.take(symbol.len() - "USDT"@.len())
    } else if ends_with(symbol, "BTC"@) {
        symbol.take(symbol.len() - "BTC"@.len())
    } else if ends_with(symbol, "ETH"@) {
        symbol.take(symbol.len() - "ETH"@.len())
    } else {
        symbol
    }
}

fn base_asset(symbol: &str) -> (r: &str)
    ensures
        r@ == base_asset_of(symbol@),
{
    match strip_end(symbol, "USDT") {
        Some(base) => base,
        None => match strip_end(symbol, "BTC") {
            Some(base) => base,
            None => match strip_end(symbol, "ETH") {
                Some(base) => base,
                None => symbol,
            },
        },
    }
}

/// What is free of an asset: the first balance of that asset counts, and one
/// that cannot be read counts as zero.
pub open spec fn free_of<S: Value>(balances: Seq<Balance>, asset: Seq<char>) -> S
    decreases balances.len(),
{
    if balances.len() == 0 {
        S::count(0)
    } else if balances[0].asset@ == asset {
        match S::reading(balances[0].free@) {
            Some(x) => x,
            None => S::count(0),
        }
    } else {
        free_of(balances.skip(1), asset)
    }
}

fn find_free<S: Number>(balances: &Vec<Balance>, asset: &str) -> (r: S)
    ensures
        r == free_of::<S>(balances@, asset@),
{
    let mut i: usize = 0;
    assert(balances@.skip(0) =~= balances@);
    while i < balances.len()
        invariant
            i <= balances@.len(),
            free_of::<S>(balances@, asset@) == free_of::<S>(balances@.skip(i as int), asset@),
        decreases balances.len() - i,
    {
        if same_text(balances[i].asset.as_str(), asset) {
            return match S::parse(balances[i].free.as_str()) {
                Some(x) => x,
                None => S::from_u64(0),
            };
        }
        assert(balances@.skip(i as int).skip(1) =~= balances@.skip(i + 1));
        i += 1;
    }
    S::from_u64(0)
}

/// The number that a text denotes, or another one where it denotes none.
pub open spec fn reading_or<S: Value>(text: Seq<char>, other: S) -> S {
    match S::reading(text) {
        Some(x) => x,
        None => other,
    }
}

fn parse_or<S: Number>(text: &str, other: S) -> (r: S)
    ensures
        r == reading_or(text@, other),
{
    match S::parse(text) {
        Some(x) => x,
        None => other,
    }
}

/// The error of an answer that is not a success, where there is one.
pub open spec fn failure_of(code: u16, status: Seq<char>, text: Seq<char>) -> Option<Seq<char>> {
    if 200 <= code < 300 {
        None
    } else {
        Some("HTTP "@ + status + " — "@ + text)
    }
}

/// The error of an answer that is not a success; `status` is the code with its
/// reason as text.
pub fn order_failure(code: u16, status: &str, text: &str) -> (r: Option<String>)
    ensures
        match r {
            None => failure_of(code, status@, text@) is None,
            Some(e) => failure_of(code, status@, text@) == Some(e@),
        },
{
    if code >= 200 && code < 300 {
        None
    } else {
        let mut e = "HTTP ".to_owned();
        e.append(status);
        e.append(" — ");
        e.append(text);
        Some(e)
    }
}

/// The record of an order, from what the exchange answered.
pub open spec fn records_order<S: Value>(
    r: TradeRecord<S>,
    resp: OrderResponse,
    side: Side,
    grid_price: S,
    quantity: S,
    symbol: Seq<char>,
) -> bool {
    let exec_price = reading_or(resp.price@, grid_price);
    let exec_qty = reading_or(resp.executed_qty@, quantity);
    &&& r.side == side
    &&& r.symbol@ == symbol
    &&& r.price == grid_price
    &&& r.exec_price == exec_price
    &&& r.qty == exec_qty
    &&& r.value_usdt == exec_qty.prod(exec_price)
    &&& r.slippage == exec_price.diff(grid_price).size().prod(exec_qty)
    &&& r.slip_mult == S::count(1)
    &&& r.trend_signal@ == ""@
    &&& r.binance_oid == Some(resp.order_id)
}

/// Whether the answer to an order is noted: recorded where it was placed, and not where
/// it failed.
pub open spec fn notes_answer<S: Value>(
    r: Option<TradeRecord<S>>,
    answer: Result<OrderResponse, String>,
    side: Side,
    grid_price: S,
    quantity: S,
    symbol: Seq<char>,
) -> bool {
    match answer {
        Err(_) => r is None,
        Ok(resp) => {
            &&& r matches Some(record)
            &&& records_order(record, resp, side, grid_price, quantity, symbol)
            &&& is_random_id(record.id@)
            &&& is_time(record.time@)
        },
    }
}

/// The record of an order under an identifier, at a time.
pub fn record_of_order<S: Number>(
    resp: &OrderResponse,
    side: &Side,
    grid_price: S,
    quantity: S,
    symbol: &str,
    id: String,
    time: String,
) -> (r: TradeRecord<S>)
    ensures
        records_order(r, *resp, *side, grid_price, quantity, symbol@),
        r.id == id,
        r.time == time,
{
    let exec_price = parse_or(resp.price.as_str(), grid_price);
    let exec_qty = parse_or(resp.executed_qty.as_str(), quantity);
    TradeRecord {
        id,
        time,
        side: *side,
        symbol: symbol.to_owned(),
        price: grid_price,
        exec_price,
        qty: exec_qty,
        value_usdt: exec_qty.times(exec_price),
        slippage: exec_price.minus(grid_price).abs().times(exec_qty),
        slip_mult: S::from_u64(1),
        trend_signal: "".to_owned(),
        binance_oid: Some(resp.order_id),
    }
}

/// Access to the exchange for one symbol.
pub struct BinanceTrader {
    pub api_key: String,
    pub api_secret: String,
    pub symbol: String,
    /// Orders are answered without being sent.
    pub dry_run: bool,
}

impl BinanceTrader {
    pub fn new(api_key: String, api_secret: String, symbol: String, dry_run: bool) -> (r: Self)
        ensures
            r.api_key == api_key,
            r.api_secret == api_secret,
            r.symbol == symbol,
            r.dry_run == dry_run,
    {
        BinanceTrader { api_key, api_secret, symbol, dry_run }
    }

    /// What is free of the quote currency and of the symbol's base asset.
    pub open spec fn free_balances<S: Value>(self, balances: Seq<Balance>) -> (S, S) {
        (free_of(balances, "USDT"@), free_of(balances, base_asset_of(self.symbol@)))
    }

    /// Whether a request asks for the price of the symbol.
    pub open spec fn asks_price(self, r: Request) -> bool {
        &&& r.method is Get
        &&& r.url@ == base_url() + ("/api/v3/ticker/price?symbol="@ + self.symbol@)
        &&& r.api_key is None
        &&& r.body is None
    }

    /// Whether a request asks for the account, signed.
    pub open spec fn asks_account(self, r: Request, ts: u64) -> bool {
        &&& r.method is Get
        &&& r.url@ == base_url() + ("/api/v3/account?"@ + signed_params(
            self.api_secret@,
            account_params(ts),
        ))
        &&& self.keyed(r)
        &&& r.body is None
    }

    /// Whether a request asks for a key to the stream of order updates.
    pub open spec fn asks_stream_key(self, r: Request) -> bool {
        &&& r.method is Post
        &&& r.url@ == base_url() + "/api/v3/userDataStream"@
        &&& self.keyed(r)
        &&& r.body is None
    }

    /// Whether a request keeps a stream key alive.
    pub open spec fn renews_stream_key(self, r: Request, key: Seq<char>) -> bool {
        &&& r.method is Put
        &&& r.url@ == base_url() + ("/api/v3/userDataStream?listenKey="@ + key)
        &&& self.keyed(r)
        &&& r.body is None
    }

    /// Whether a request carries the trader's key.
    pub open spec fn keyed(self, request: Request) -> bool {
        request.api_key matches Some(key) && key@ == self.api_key@
    }

    /// Whether a plan is that of a limit order: answered without being sent in a dry
    /// run, and else signed and sent.
    pub open spec fn plans_limit_order<S: Value>(
        self,
        plan: OrderPlan,
        side: Side,
        quantity: S,
        price: S,
        ts: u64,
    ) -> bool {
        match plan {
            OrderPlan::DryRun(resp) => {
                &&& self.dry_run
                &&& resp.symbol@ == self.symbol@
                &&& resp.order_id == 0
                &&& resp.status@ == "DRY_RUN"@
                &&& resp.executed_qty@ == quantity.digits(4)
                &&& resp.cumulative_quote_qty@ == "0"@
                &&& resp.price@ == price.digits(4)
            },
            OrderPlan::Send(request) => {
                &&& !self.dry_run
                &&& request.method is Post
                &&& request.url@ == base_url() + "/api/v3/order"@
                &&& self.keyed(request)
                &&& request.body matches Some(body) && body@ == signed_params(
                    self.api_secret@,
                    limit_order_params(
                        self.symbol@,
                        side,
                        quantity.digits(4),
                        price.digits(4),
                        ts,
                    ),
                )
            },
        }
    }

    /// Whether a plan is that of a cancellation; in a dry run there is nothing to send.
    pub open spec fn plans_cancellation(
        self,
        plan: Option<Request>,
        order_id: u64,
        ts: u64,
    ) -> bool {
        match plan {
            None => self.dry_run,
            Some(request) => {
                &&& !self.dry_run
                &&& request.method is Delete
                &&& request.url@ == base_url() + "/api/v3/order"@
                &&& self.keyed(request)
                &&& request.body matches Some(body) && body@ == signed_params(
                    self.api_secret@,
                    cancel_params(self.symbol@, order_id, ts),
                )
            },
        }
    }

    /// A limit order at a time of the wall clock in milliseconds, with quantity
    /// and price in four decimal places.
    pub fn place_limit_order<S: Number>(
        &self,
        side: &Side,
        quantity: S,
        price: S,
        ts: u64,
    ) -> (r: OrderPlan)
        ensures
            self.plans_limit_order(r, *side, quantity, price, ts),
    {
        let qty = quantity.to_text(4);
        let prc = price.to_text(4);
        if self.dry_run {
            return OrderPlan::DryRun(
                OrderResponse {
                    symbol: self.symbol.clone(),
                    order_id: 0,
                    status: "DRY_RUN".to_owned(),
                    executed_qty: qty,
                    cumulative_quote_qty: "0".to_owned(),
                    price: prc,
                },
            );
        }
        let mut params = "symbol=".to_owned();
        params.append(self.symbol.as_str());
        params.append("&side=");
        params.append(side.binance_str());
        params.append("&type=LIMIT&timeInForce=GTC&quantity=");
        params.append(qty.as_str());
        params.append("&price=");
        params.append(prc.as_str());
        params.append("&timestamp=");
        params.append(decimal(ts).as_str());
        OrderPlan::Send(
            Request {
                method: Method::Post,
                url: url_of("/api/v3/order"),
                api_key: Some(self.api_key.clone()),
                body: Some(with_signature(self.api_secret.as_str(), params.as_str())),
            },
        )
    }

    /// The cancellation of an order; in a dry run there is nothing to send.
    pub fn cancel_order(&self, order_id: u64, ts: u64) -> (r: Option<Request>)
        ensures
            self.plans_cancellation(r, order_id, ts),
    {
        if self.dry_run {
            return None;
        }
        let mut params = "symbol=".to_owned();
        params.append(self.symbol.as_str());
        params.append("&orderId=");
        params.append(decimal(order_id).as_str());
        params.append("&timestamp=");
        params.append(decimal(ts).as_str());
        Some(
            Request {
                method: Method::Delete,
                url: url_of("/api/v3/order"),
                api_key: Some(self.api_key.clone()),
                body: Some(with_signature(self.api_secret.as_str(), params.as_str())),
            },
        )
    }

    /// The request for the current price.
    pub fn price_request(&self) -> (r: Request)
        ensures
            self.asks_price(r),
    {
        let mut path = "/api/v3/ticker/price?symbol=".to_owned();
        path.append(self.symbol.as_str());
        Request {
            method: Method::Get,
            url: url_of(path.as_str()),
            api_key: None,
            body: None,
        }
    }

    /// The price of a ticker, where it can be read.
    pub fn get_price<S: Number>(ticker: &TickerPrice) -> (r: Option<S>)
        ensures
            r == S::reading(ticker.price@),
    {
        S::parse(ticker.price.as_str())
    }

    /// The request for the account's balances.
    pub fn account_request(&self, ts: u64) -> (r: Request)
        ensures
            self.asks_account(r, ts),
    {
        let mut params = "timestamp=".to_owned();
        params.append(decimal(ts).as_str());
        let mut path = "/api/v3/account?".to_owned();
        path.append(with_signature(self.api_secret.as_str(), params.as_str()).as_str());
        Request {
            method: Method::Get,
            url: url_of(path.as_str()),
            api_key: Some(self.api_key.clone()),
            body: None,
        }
    }

    /// What is free of the quote currency and of the symbol's base asset.
    pub fn get_balances<S: Number>(&self, info: &AccountInfo) -> (r: (S, S))
        ensures
            r == self.free_balances::<S>(info.balances@),
    {
        let usdt = find_free(&info.balances, "USDT");
        let base = find_free(&info.balances, base_asset(self.symbol.as_str()));
        (usdt, base)
    }

    /// The request for a key to the stream of order updates.
    pub fn create_listen_key(&self) -> (r: Request)
        ensures
            self.asks_stream_key(r),
    {
        Request {
            method: Method::Post,
            url: url_of("/api/v3/userDataStream"),
            api_key: Some(self.api_key.clone()),
            body: None,
        }
    }

    /// The request that keeps a stream key alive.
    pub fn keepalive_listen_key(&self, key: &str) -> (r: Request)
        ensures
            self.renews_stream_key(r, key@),
    {
        let mut path = "/api/v3/userDataStream?listenKey=".to_owned();
        path.append(key);
        Request {
            method: Method::Put,
            url: url_of(path.as_str()),
            api_key: Some(self.api_key.clone()),
            body: None,
        }
    }

    /// The record of an order that was placed, or nothing where it failed. The
    /// identifier and the time come from chance and the clock.
    pub fn execute_grid_trade<S: Number>(
        &self,
        side: &Side,
        grid_price: S,
        quantity: S,
        symbol: &str,
        answer: Result<OrderResponse, String>,
    ) -> (r: Option<TradeRecord<S>>)
        ensures
            notes_answer(r, answer, *side, grid_price, quantity, symbol@),
    {
        match answer {
            Err(_) => None,
            Ok(resp) => Some(
                record_of_order(
                    &resp,
                    side,
                    grid_price,
                    quantity,
                    symbol,
                    random_id(),
                    timestamp(),
                ),
            ),
        }
    }
}

// The stream of order updates
/// The address of the stream of order updates under a key.
pub open spec fn updates_address(listen_key: Seq<char>) -> Seq<char> {
    "wss://stream.binance.com:9443/ws/"@ + listen_key
}

/// The address of a stream.
pub fn stream_url(listen_key: &str) -> (r: String)
    ensures
        r@ == updates_address(listen_key@),
{
    let mut r = "wss://stream.binance.com:9443/ws/".to_owned();
    r.append(listen_key);
    r
}

/// Whether a report says that an order was filled, wholly or in part.
pub open spec fn tells_fill(report: WsExecutionReport) -> bool {
    &&& report.event_type@ == "executionReport"@
    &&& report.status@ == "FILLED"@ || report.status@ == "PARTIALLY_FILLED"@
}

pub fn is_fill(report: &WsExecutionReport) -> (r: bool)
    ensures
        r == tells_fill(*report),
{
    same_text(report.event_type.as_str(), "executionReport") && (same_text(
        report.status.as_str(),
        "FILLED",
    ) || same_text(report.status.as_str(), "PARTIALLY_FILLED"))
}

/// What happens on the stream.
pub enum StreamEvent {
    ConnectFailed,
    Connected,
    Report(WsExecutionReport),
    /// A message that is no report, or none at all.
    Other,
    Ended,
}

/// What to do next.
pub enum StreamAction {
    Read,
    /// Hand the report on, then read the next message.
    Forward(WsExecutionReport),
    /// Wait that many seconds, then connect.
    Reconnect(u64),
}

/// The state of the listener for order updates.
pub struct UserDataStream {
    backoff: Backoff,
}

impl UserDataStream {
    pub closed spec fn next_wait(self) -> nat {
        self.backoff.next_wait()
    }

    pub fn new() -> (r: Self)
        ensures
            r.next_wait() == 1,
    {
        UserDataStream { backoff: Backoff::new() }
    }

    /// Whether a listener becomes `after` at an event, and what it then does.
    pub open spec fn takes_event(
        self,
        event: StreamEvent,
        after: Self,
        action: StreamAction,
    ) -> bool {
        match event {
            StreamEvent::ConnectFailed | StreamEvent::Ended => {
                &&& action == StreamAction::Reconnect(self.next_wait() as u64)
                &&& after.next_wait() == doubled(self.next_wait())
            },
            StreamEvent::Connected => action is Read && after.next_wait() == 1,
            StreamEvent::Report(report) => {
                &&& after.next_wait() == self.next_wait()
                &&& action == if tells_fill(report) {
                    StreamAction::Forward(report)
                } else {
                    StreamAction::Read
                }
            },
            StreamEvent::Other => action is Read && after.next_wait() == self.next_wait(),
        }
    }

    /// Takes an event of the stream.
    pub fn on_event(&mut self, event: StreamEvent) -> (r: StreamAction)
        ensures
            old(self).takes_event(event, *final(self), r),
    {
        match event {
            StreamEvent::ConnectFailed => StreamAction::Reconnect(self.backoff.wait()),
            StreamEvent::Ended => StreamAction::Reconnect(self.backoff.wait()),
            StreamEvent::Connected => {
                self.backoff.reset();
                StreamAction::Read
            },
            StreamEvent::Report(report) => if is_fill(&report) {
                StreamAction::Forward(report)
            } else {
                StreamAction::Read
            },
            StreamEvent::Other => StreamAction::Read,
        }
    }
}

} // verus!
