//! Copy trading: followers register, pay, and receive every trade as a signed
//! signal.
use vstd::prelude::*;

use crate::models::{Follower, TradeRecord, TradeSignal};
use crate::number::{lit, ratio, Number, Value};
use crate::signing::{sign_payload, signature};
use crate::stamp::{date_of, date_part, is_date, is_random_id, is_time, random_id};
use crate::stamp::{timestamp, today};
use crate::text::{begins_with, decimal, is_before, numeral, same_text, starts_with, text_before};

verus! {

/// The log is cut when it holds more signals than this.
pub const LOG_LIMIT: usize = 1000;

/// How many of the oldest signals a cut takes.
pub const LOG_CUT: usize = 500;

/// How many of the latest signals the statistics show.
pub const RECENT: usize = 10;

/// The characters of a signal's hash.
pub const HASH_CHARS: usize = 16;

// Requests and replies
#[derive(Debug, Clone)]
pub struct RegisterRequest {
    pub webhook_url: String,
    /// The last day that is paid for, as an ISO date.
    pub paid_until: String,
}

#[derive(Debug, Clone)]
pub struct RegisterResponse<S> {
    pub follower_id: String,
    pub message: String,
    pub fee_pct: S,
}

#[derive(Debug, Clone)]
pub struct StatsResponse<S> {
    pub master_id: String,
    pub total_trades: u64,
    pub followers: usize,
    pub active_followers: usize,
    /// The latest signals, newest first.
    pub recent_signals: Vec<TradeSignal<S>>,
    pub fee_pct: S,
}

#[derive(Debug, Clone)]
pub struct FeeVerifyRequest {
    pub follower_id: String,
    pub paid_until: String,
    pub admin_token: String,
}

/// A request that was refused, with its HTTP status code.
#[derive(Debug, Clone)]
pub struct Refusal {
    pub code: u16,
    pub error: String,
}

/// Where a signal goes.
#[derive(Debug, Clone)]
pub struct Delivery {
    pub follower_id: String,
    pub webhook_url: String,
}

/// A signal and where it goes.
#[derive(Debug, Clone)]
pub struct Dispatch<S> {
    pub signal: TradeSignal<S>,
    pub deliveries: Vec<Delivery>,
}

// Signals
/// The hash of a signal: the first characters of the signature of symbol, side,
/// price in six decimal places, and time.
pub open spec fn signal_hash_of<S: Value>(
    secret: Seq<char>,
    symbol: Seq<char>,
    side: Seq<char>,
    price: S,
    ts: Seq<char>,
) -> Seq<char> {
    signature(secret, symbol + side + price.digits(6) + ts).take(HASH_CHARS as int)
}

/// Signs a signal.
pub fn sign_signal<S: Number>(
    secret: &str,
    symbol: &str,
    side: &str,
    price: S,
    ts: &str,
) -> (r: String)
    ensures
        r@ == signal_hash_of(secret@, symbol@, side@, price, ts@),
        r@.len() == HASH_CHARS,
{
    let mut payload = symbol.to_owned();
    payload.append(side);
    payload.append(price.to_text(6).as_str());
    payload.append(ts);
    let full = sign_payload(secret, payload.as_str());
    let head = full.as_str().substring_char(0, HASH_CHARS);
    assert(head@ =~= full@.take(HASH_CHARS as int));
    head.to_owned()
}

/// Whether a signal tells of a trade.
pub open spec fn signals_trade<S: Value>(
    s: TradeSignal<S>,
    trade: TradeRecord<S>,
    master_id: Seq<char>,
    secret: Seq<char>,
    now: Seq<char>,
) -> bool {
    &&& s.master_id@ == master_id
    &&& s.symbol@ == trade.symbol@
    &&& s.side@ == trade.side.word()
    &&& s.price == trade.exec_price
    &&& s.qty_pct == ratio::<S>(9, 100)
    &&& s.timestamp@ == now
    &&& s.signal_hash@ == signal_hash_of(
        secret,
        trade.symbol@,
        trade.side.word(),
        trade.exec_price,
        now,
    )
}

// Followers
/// Whether a follower gets the signals of a day: active, and paid until that
/// day or later.
pub open spec fn is_served(f: Follower, day: Seq<char>) -> bool {
    f.active && !text_before(f.paid_until@, day)
}

/// The followers that get the signals of a day, in order.
pub open spec fn served(followers: Seq<Follower>, day: Seq<char>) -> Seq<Follower>
    decreases followers.len(),
{
    if followers.len() == 0 {
        Seq::empty()
    } else if is_served(followers.last(), day) {
        served(followers.drop_last(), day).push(followers.last())
    } else {
        served(followers.drop_last(), day)
    }
}

fn serves(f: &Follower, day: &str) -> (r: bool)
    ensures
        r == is_served(*f, day@),
{
    f.active && !is_before(f.paid_until.as_str(), day)
}

/// Whether deliveries go to followers, one to each, in order.
pub open spec fn delivers_to(deliveries: Seq<Delivery>, followers: Seq<Follower>) -> bool {
    &&& deliveries.len() == followers.len()
    &&& forall|i: int|
        0 <= i < followers.len() ==> (#[trigger] deliveries[i]).follower_id@ == followers[i].id@
            && deliveries[i].webhook_url@ == followers[i].webhook_url@
}

/// Where the first follower with an identifier stands, or the number of
/// followers where there is none.
pub open spec fn position_of(followers: Seq<Follower>, id: Seq<char>) -> int
    decreases followers.len(),
{
    if followers.len() == 0 {
        0
    } else if followers[0].id@ == id {
        0
    } else {
        1 + position_of(followers.skip(1), id)
    }
}

fn find_follower(followers: &Vec<Follower>, id: &str) -> (r: usize)
    ensures
        r == position_of(followers@, id@),
        r <= followers@.len(),
        r < followers@.len() ==> followers@[r as int].id@ == id@,
{
    let mut i: usize = 0;
    assert(followers@.skip(0) =~= followers@);
    while i < followers.len() && !same_text(followers[i].id.as_str(), id)
        invariant
            i <= followers@.len(),
            position_of(followers@, id@) == i + position_of(followers@.skip(i as int), id@),
        decreases followers.len() - i,
    {
        assert(followers@.skip(i as int).skip(1) =~= followers@.skip(i + 1));
        i += 1;
    }
    i
}

/// A signal log with a new signal; the oldest leave when it gets too long.
pub open spec fn logged<T>(log: Seq<T>, signal: T) -> Seq<T> {
    let all = log.push(signal);
    if all.len() > LOG_LIMIT {
        all.skip(LOG_CUT as int)
    } else {
        all
    }
}

/// The token that an administrator has to give.
pub open spec fn expected_token(configured: Option<String>) -> Seq<char> {
    match configured {
        Some(token) => token@,
        None => "changeme"@,
    }
}

/// The token that an administrator has to give: the configured one, or the
/// default.
pub fn admin_token(configured: Option<String>) -> (r: String)
    ensures
        r@ == expected_token(configured),
{
    match configured {
        Some(token) => token,
        None => "changeme".to_owned(),
    }
}

/// The answer to a liveness check.
pub fn health() -> (r: &'static str)
    ensures
        r@ == "SPD Grid Bot — OK"@,
{
    "SPD Grid Bot — OK"
}

/// The address on which the server listens: a port on every interface.
pub open spec fn address_of(port: u16) -> Seq<char> {
    "0.0.0.0:"@ + numeral(port as nat)
}

/// The address on which the server listens.
pub fn listen_address(port: u16) -> (r: String)
    ensures
        r@ == address_of(port),
{
    let mut r = "0.0.0.0:".to_owned();
    r.append(decimal(port as u64).as_str());
    r
}

/// What the copy-trade server knows.
pub struct CopyTradeState<S> {
    pub followers: Vec<Follower>,
    pub signal_log: Vec<TradeSignal<S>>,
    pub total_trades: u64,
    pub master_id: String,
    /// The secret that signs the signals.
    pub secret: String,
    pub fee_pct: S,
}

/// The text that greets a follower.
pub open spec fn greeting<S: Value>(webhook_url: Seq<char>, fee_pct: S) -> Seq<char> {
    "Registered! Master will broadcast signals to "@ + webhook_url + ". Fee: "@ + fee_pct.digits(0)
        + "% of profits."@
}

/// Whether an address can be called: it starts with the name of the protocol.
pub open spec fn is_webhook(url: Seq<char>) -> bool {
    url.len() > 0 && begins_with(url, "http"@)
}

impl<S: Value> CopyTradeState<S> {
    /// Every follower can be called, and the log is within its limit.
    pub open spec fn wf(self) -> bool {
        &&& forall|i: int|
            0 <= i < self.followers@.len() ==> is_webhook(
                (#[trigger] self.followers@[i]).webhook_url@,
            )
        &&& self.signal_log@.len() <= LOG_LIMIT
    }

    /// Whether a server has no followers yet.
    pub open spec fn begins_as(self, master_id: String, fee_pct: S, secret: Option<String>) -> bool {
        &&& self.followers@ == Seq::<Follower>::empty()
        &&& self.signal_log@ == Seq::<TradeSignal<S>>::empty()
        &&& self.total_trades == 0
        &&& self.master_id == master_id
        &&& self.fee_pct == fee_pct
        &&& match secret {
            Some(s) => self.secret == s,
            None => is_random_id(self.secret@),
        }
    }

    /// The server under another name and with another fee.
    pub open spec fn renamed(self, master_id: String, fee_pct: S) -> Self {
        CopyTradeState { master_id, fee_pct, ..self }
    }

    /// Whether statistics are those of a day.
    pub open spec fn tells_stats(self, r: StatsResponse<S>, day: Seq<char>) -> bool {
        &&& r.master_id@ == self.master_id@
        &&& r.total_trades == self.total_trades
        &&& r.followers == self.followers@.len()
        &&& r.active_followers == served(self.followers@, day).len()
        &&& r.recent_signals@ == recent(self.signal_log@)
        &&& r.fee_pct == self.fee_pct
    }

    /// Whether a registration under an identifier and at a time is answered, and makes
    /// the state `after`: the newcomer comes last, active and paid as they say.
    pub open spec fn registers(
        self,
        after: Self,
        req: RegisterRequest,
        id: Seq<char>,
        registered: Seq<char>,
        r: Result<RegisterResponse<S>, Refusal>,
    ) -> bool {
        &&& after.same_but_followers(self)
        &&& match r {
            Err(refusal) => {
                &&& !is_webhook(req.webhook_url@)
                &&& refusal.code == 400
                &&& refusal.error@ == "Invalid webhook_url"@
                &&& after.followers == self.followers
            },
            Ok(resp) => {
                &&& is_webhook(req.webhook_url@)
                &&& resp.follower_id@ == id
                &&& resp.message@ == greeting(req.webhook_url@, self.fee_pct)
                &&& resp.fee_pct == self.fee_pct
                &&& after.followers@.len() == self.followers@.len() + 1
                &&& after.followers@.drop_last() == self.followers@
                &&& after.followers@.last().id@ == id
                &&& after.followers@.last().webhook_url@ == req.webhook_url@
                &&& after.followers@.last().active
                &&& after.followers@.last().paid_until@ == req.paid_until@
                &&& after.followers@.last().total_trades == 0
                &&& after.followers@.last().registered@ == registered
            },
        }
    }

    /// Whether a payment is answered, and makes the state `after`: it needs the token,
    /// and a follower with the identifier, of whom the first counts.
    pub open spec fn marks_paid(
        self,
        after: Self,
        req: FeeVerifyRequest,
        token: Seq<char>,
        r: Result<(), Refusal>,
    ) -> bool {
        let i = position_of(self.followers@, req.follower_id@);
        &&& after.same_but_followers(self)
        &&& match r {
            Err(refusal) => {
                &&& after.followers@ == self.followers@
                &&& if req.admin_token@ != token {
                    refusal.code == 401 && refusal.error@ == "Invalid admin token"@
                } else {
                    &&& i == self.followers@.len()
                    &&& refusal.code == 404
                    &&& refusal.error@ == "Follower not found"@
                }
            },
            Ok(_) => {
                &&& req.admin_token@ == token
                &&& i < self.followers@.len()
                &&& after.followers@ == self.followers@.update(
                    i,
                    Follower {
                        paid_until: req.paid_until,
                        active: true,
                        ..self.followers@[i]
                    },
                )
            },
        }
    }

    /// Whether two states differ at most in their followers.
    pub open spec fn same_but_followers(self, other: Self) -> bool {
        &&& self.signal_log == other.signal_log
        &&& self.total_trades == other.total_trades
        &&& self.master_id == other.master_id
        &&& self.secret == other.secret
        &&& self.fee_pct == other.fee_pct
    }
}

impl<S: Number> CopyTradeState<S> {
    /// A server without followers; without a configured secret it gets a random
    /// one.
    pub fn new(master_id: String, fee_pct: S, secret: Option<String>) -> (r: Self)
        ensures
            r.wf(),
            r.begins_as(master_id, fee_pct, secret),
    {
        let secret = match secret {
            Some(s) => s,
            None => random_id(),
        };
        CopyTradeState {
            followers: Vec::new(),
            signal_log: Vec::new(),
            total_trades: 0,
            master_id,
            secret,
            fee_pct,
        }
    }

    /// Takes up another name and another fee; followers and signals stay.
    pub fn reconfigure(&mut self, master_id: String, fee_pct: S)
        ensures
            *final(self) == old(self).renamed(master_id, fee_pct),
            old(self).wf() ==> final(self).wf(),
    {
        self.master_id = master_id;
        self.fee_pct = fee_pct;
    }

    /// Signs up a follower under an identifier, at a time.
    pub fn register_as(&mut self, req: &RegisterRequest, id: String, registered: String) -> (r:
        Result<RegisterResponse<S>, Refusal>)
        ensures
            old(self).registers(*final(self), *req, id@, registered@, r),
            old(self).wf() ==> final(self).wf(),
    {
        if req.webhook_url.as_str().is_empty() || !starts_with(req.webhook_url.as_str(), "http") {
            return Err(Refusal { code: 400, error: "Invalid webhook_url".to_owned() });
        }
        let mut message = "Registered! Master will broadcast signals to ".to_owned();
        message.append(req.webhook_url.as_str());
        message.append(". Fee: ");
        message.append(self.fee_pct.to_text(0).as_str());
        message.append("% of profits.");
        let follower = Follower {
            id: id.clone(),
            webhook_url: req.webhook_url.clone(),
            active: true,
            paid_until: req.paid_until.clone(),
            total_trades: 0,
            registered,
        };
        self.followers.push(follower);
        assert(self.followers@.drop_last() =~= old(self).followers@);
        proof {
            if old(self).wf() {
                assert forall|i: int| 0 <= i < self.followers@.len() implies is_webhook(
                    (#[trigger] self.followers@[i]).webhook_url@,
                ) by {
                    if i < old(self).followers@.len() {
                        assert(self.followers@[i] == old(self).followers@[i]);
                    }
                }
            }
        }
        Ok(RegisterResponse { follower_id: id, message, fee_pct: self.fee_pct })
    }

    /// Signs up a follower. The identifier and the time come from chance and the
    /// clock.
    pub fn handle_register(&mut self, req: &RegisterRequest) -> (r: Result<
        RegisterResponse<S>,
        Refusal,
    >)
        ensures
            old(self).wf() ==> final(self).wf(),
            old(self).registers(
                *final(self),
                *req,
                final(self).followers@.last().id@,
                final(self).followers@.last().registered@,
                r,
            ),
            r matches Ok(resp) ==> is_random_id(resp.follower_id@) && is_time(
                final(self).followers@.last().registered@,
            ),
    {
        self.register_as(req, random_id(), timestamp())
    }

    /// The statistics of a day.
    pub fn stats_on(&self, day: &str) -> (r: StatsResponse<S>)
        ensures
            self.tells_stats(r, day@),
    {
        let mut active: usize = 0;
        let mut i: usize = 0;
        while i < self.followers.len()
            invariant
                i <= self.followers@.len(),
                active <= i,
                active == served(self.followers@.take(i as int), day@).len(),
            decreases self.followers.len() - i,
        {
            assert(self.followers@.take(i + 1).drop_last() =~= self.followers@.take(i as int));
            if serves(&self.followers[i], day) {
                active += 1;
            }
            i += 1;
        }
        assert(self.followers@.take(i as int) =~= self.followers@);
        let mut signals: Vec<TradeSignal<S>> = Vec::new();
        let n = self.signal_log.len();
        while signals.len() < RECENT && signals.len() < n
            invariant
                n == self.signal_log@.len(),
                signals@.len() <= RECENT,
                signals@.len() <= n,
                forall|j: int|
                    0 <= j < signals@.len() ==> #[trigger] signals@[j] == self.signal_log@[n - 1
                        - j],
            decreases n - signals.len(),
        {
            signals.push(self.signal_log[n - 1 - signals.len()].duplicate());
        }
        assert(signals@ =~= recent(self.signal_log@));
        StatsResponse {
            master_id: self.master_id.clone(),
            total_trades: self.total_trades,
            followers: self.followers.len(),
            active_followers: active,
            recent_signals: signals,
            fee_pct: self.fee_pct,
        }
    }

    /// The statistics of today; the day comes from the clock.
    pub fn handle_stats(&self) -> (r: StatsResponse<S>)
        ensures
            r.active_followers <= r.followers,
            exists|day: Seq<char>| is_date(day) && #[trigger] self.tells_stats(r, day),
    {
        let day = today();
        proof {
            law_served_are_followers(self.followers@, day@);
        }
        self.stats_on(day.as_str())
    }

    /// Notes a follower's payment, where the administrator's token is right.
    pub fn handle_verify_fee(&mut self, req: &FeeVerifyRequest, token: &str) -> (r: Result<
        (),
        Refusal,
    >)
        ensures
            old(self).marks_paid(*final(self), *req, token@, r),
            old(self).wf() ==> final(self).wf(),
    {
        if !same_text(req.admin_token.as_str(), token) {
            return Err(Refusal { code: 401, error: "Invalid admin token".to_owned() });
        }
        let i = find_follower(&self.followers, req.follower_id.as_str());
        if i == self.followers.len() {
            return Err(Refusal { code: 404, error: "Follower not found".to_owned() });
        }
        let paid = Follower {
            id: self.followers[i].id.clone(),
            webhook_url: self.followers[i].webhook_url.clone(),
            active: true,
            paid_until: req.paid_until.clone(),
            total_trades: self.followers[i].total_trades,
            registered: self.followers[i].registered.clone(),
        };
        self.followers.set(i, paid);
        proof {
            if old(self).wf() {
                assert forall|j: int| 0 <= j < self.followers@.len() implies is_webhook(
                    (#[trigger] self.followers@[j]).webhook_url@,
                ) by {
                    assert(is_webhook(old(self).followers@[j].webhook_url@));
                }
            }
        }
        Ok(())
    }
}

/// The latest signals, newest first.
pub open spec fn recent<T>(log: Seq<T>) -> Seq<T> {
    Seq::new(
        if log.len() < RECENT {
            log.len()
        } else {
            RECENT as nat
        },
        |j: int| log[log.len() - 1 - j],
    )
}

/// Sends the trades to the followers.
pub struct CopyBroadcast<S> {
    pub state: CopyTradeState<S>,
}

impl<S: Value> CopyBroadcast<S> {
    /// Whether the signal of a trade at a time goes out on a day, and makes the state
    /// `after`.
    pub open spec fn sends_out(
        self,
        after: Self,
        trade: TradeRecord<S>,
        now: Seq<char>,
        day: Seq<char>,
        r: Dispatch<S>,
    ) -> bool {
        &&& signals_trade(r.signal, trade, self.state.master_id@, self.state.secret@, now)
        &&& delivers_to(r.deliveries@, served(self.state.followers@, day))
        &&& after.state.signal_log@ == logged(self.state.signal_log@, r.signal)
        &&& after.state.total_trades == self.state.total_trades + 1
        &&& after.state.followers == self.state.followers
        &&& after.state.master_id == self.state.master_id
        &&& after.state.secret == self.state.secret
        &&& after.state.fee_pct == self.state.fee_pct
    }
}

impl<S: Number> CopyBroadcast<S> {
    pub fn new(state: CopyTradeState<S>) -> (r: Self)
        ensures
            r.state == state,
    {
        CopyBroadcast { state }
    }

    /// Makes the signal of a trade at a time, logs it, and says where it goes on
    /// a day.
    pub fn broadcast_at(&mut self, trade: &TradeRecord<S>, now: &str, day: &str) -> (r: Dispatch<S>)
        requires
            old(self).state.total_trades < u64::MAX,
        ensures
            old(self).sends_out(*final(self), *trade, now@, day@, r),
            old(self).state.wf() ==> final(self).state.wf(),
    {
        let side = trade.side.binance_str();
        let signal = TradeSignal {
            master_id: self.state.master_id.clone(),
            symbol: trade.symbol.clone(),
            side: side.to_owned(),
            price: trade.exec_price,
            qty_pct: lit(9, 100),
            timestamp: now.to_owned(),
            signal_hash: sign_signal(
                self.state.secret.as_str(),
                trade.symbol.as_str(),
                side,
                trade.exec_price,
                now,
            ),
        };
        self.state.signal_log.push(signal.duplicate());
        if self.state.signal_log.len() > LOG_LIMIT {
            let mut log: Vec<TradeSignal<S>> = Vec::new();
            std::mem::swap(&mut log, &mut self.state.signal_log);
            self.state.signal_log = log.split_off(LOG_CUT);
        }
        assert(self.state.signal_log@ =~= logged(old(self).state.signal_log@, signal));
        self.state.total_trades += 1;
        let mut deliveries: Vec<Delivery> = Vec::new();
        let mut i: usize = 0;
        while i < self.state.followers.len()
            invariant
                i <= self.state.followers@.len(),
                delivers_to(
                    deliveries@,
                    served(self.state.followers@.take(i as int), day@),
                ),
            decreases self.state.followers.len() - i,
        {
            let ghost before = served(self.state.followers@.take(i as int), day@);
            assert(self.state.followers@.take(i + 1).drop_last() =~= self.state.followers@.take(
                i as int,
            ));
            let f = &self.state.followers[i];
            if serves(f, day) {
                deliveries.push(
                    Delivery {
                        follower_id: f.id.clone(),
                        webhook_url: f.webhook_url.clone(),
                    },
                );
            }
            i += 1;
        }
        assert(self.state.followers@.take(i as int) =~= self.state.followers@);
        Dispatch { signal, deliveries }
    }

    /// Makes the signal of a trade, logs it, and says where it goes; the time
    /// comes from the clock, and the day is the day of that time.
    pub fn broadcast(&mut self, trade: &TradeRecord<S>) -> (r: Dispatch<S>)
        requires
            old(self).state.total_trades < u64::MAX,
        ensures
            is_time(r.signal.timestamp@),
            old(self).sends_out(
                *final(self),
                *trade,
                r.signal.timestamp@,
                date_of(r.signal.timestamp@),
                r,
            ),
            old(self).state.wf() ==> final(self).state.wf(),
    {
        let now = timestamp();
        let day = date_part(now.as_str());
        self.broadcast_at(trade, now.as_str(), day.as_str())
    }
}

/// The log never holds more than its limit, and the newest signal is always in
/// it, at the end.
pub proof fn law_log_stays_within_limit<T>(log: Seq<T>, signal: T)
    requires
        log.len() <= LOG_LIMIT,
    ensures
        logged(log, signal).len() <= LOG_LIMIT,
        logged(log, signal).last() == signal,
{
}

/// Those who are served are among the followers.
pub proof fn law_served_are_followers(followers: Seq<Follower>, day: Seq<char>)
    ensures
        served(followers, day).len() <= followers.len(),
        forall|i: int|
            0 <= i < served(followers, day).len() ==> is_served(
                #[trigger] served(followers, day)[i],
                day,
            ) && followers.contains(served(followers, day)[i]),
    decreases followers.len(),
{
    if followers.len() > 0 {
        let front = followers.drop_last();
        law_served_are_followers(front, day);
        assert forall|i: int| 0 <= i < served(followers, day).len() implies is_served(
            #[trigger] served(followers, day)[i],
            day,
        ) && followers.contains(served(followers, day)[i]) by {
            if i < served(front, day).len() {
                let f = served(front, day)[i];
                assert(front.contains(f));
                let j = choose|j: int| 0 <= j < front.len() && front[j] == f;
                assert(followers[j] == f);
            } else {
                assert(followers[followers.len() - 1] == served(followers, day)[i]);
            }
        }
    }
}

/// Whoever is active and paid until the day or later is served on that day.
pub proof fn law_paid_followers_are_served(followers: Seq<Follower>, day: Seq<char>, i: int)
    requires
        0 <= i < followers.len(),
        is_served(followers[i], day),
    ensures
        served(followers, day).contains(followers[i]),
    decreases followers.len(),
{
    let f = followers[i];
    let front = followers.drop_last();
    if i < front.len() {
        law_paid_followers_are_served(front, day, i);
        let s = served(front, day);
        assert(front[i] == f);
        let j = choose|j: int| 0 <= j < s.len() && s[j] == f;
        assert(served(followers, day)[j] == f);
    } else {
        assert(served(followers, day)[served(followers, day).len() - 1] == f);
    }
}

/// A follower that was found is the first with its identifier.
pub proof fn law_position_is_first(followers: Seq<Follower>, id: Seq<char>)
    ensures
        0 <= position_of(followers, id) <= followers.len(),
        position_of(followers, id) < followers.len() ==> followers[position_of(
            followers,
            id,
        )].id@ == id,
        forall|j: int|
            0 <= j < position_of(followers, id) ==> (#[trigger] followers[j]).id@ != id,
    decreases followers.len(),
{
    if followers.len() > 0 && followers[0].id@ != id {
        law_position_is_first(followers.skip(1), id);
        let p = position_of(followers.skip(1), id);
        assert forall|j: int| 0 <= j < position_of(followers, id) implies (
        #[trigger] followers[j]).id@ != id by {
            if j > 0 {
                assert(followers.skip(1)[j - 1] == followers[j]);
            }
        }
    }
}

/// Payment brings the signals: a follower marked as paid is served on every day
/// up to the one that is paid for.
pub proof fn law_payment_brings_signals(
    followers: Seq<Follower>,
    id: Seq<char>,
    paid_until: String,
    day: Seq<char>,
)
    requires
        position_of(followers, id) < followers.len(),
        !text_before(paid_until@, day),
    ensures
        ({
            let i = position_of(followers, id);
            let paid = Follower { paid_until, active: true, ..followers[i] };
            served(followers.update(i, paid), day).contains(paid)
        }),
{
    law_position_is_first(followers, id);
    let i = position_of(followers, id);
    let paid = Follower { paid_until, active: true, ..followers[i] };
    law_paid_followers_are_served(followers.update(i, paid), day, i);
}

/// Signing up takes no one's signals away, and brings the newcomer theirs for
/// the days that are paid for.
pub proof fn law_registration_keeps_the_served(
    followers: Seq<Follower>,
    newcomer: Follower,
    day: Seq<char>,
)
    ensures
        served(followers.push(newcomer), day) == if is_served(newcomer, day) {
            served(followers, day).push(newcomer)
        } else {
            served(followers, day)
        },
{
    assert(followers.push(newcomer).drop_last() =~= followers);
}

} // verus!
