//! What copy trading is for: who gets which signals, what a signal says, and how the
//! server answers.
use vstd::prelude::*;

use crate::copytrade::{address_of, expected_token, greeting, is_served, is_webhook};
use crate::copytrade::{law_position_is_first, law_served_are_followers, StatsResponse};
use crate::copytrade::{logged, recent, served, signals_trade};
use crate::copytrade::{CopyBroadcast, CopyTradeState, Dispatch, FeeVerifyRequest, Refusal};
use crate::copytrade::{RegisterRequest, RegisterResponse};
use crate::exact::lemma_ratio_undone;
use crate::exchange_laws::{law_numeral_reads_back, worth_of};
use crate::models::{Follower, TradeRecord, TradeSignal};
use crate::number::Value;
use crate::signing::signature;
use crate::stamp::{date_of, is_date, is_time};
use crate::text::{begins_with, ends_with, numeral, text_before};

verus! {

// Days
/// Texts are ordered as in a dictionary: the first character in which they differ
/// decides, a text that goes on comes later, and none comes before itself. So of two
/// dates in the same form the earlier comes first.
pub proof fn law_first_difference_decides(a: Seq<char>, b: Seq<char>, i: int)
    requires
        0 <= i <= a.len(),
        i <= b.len(),
        forall|j: int| 0 <= j < i ==> a[j] == b[j],
    ensures
        i < a.len() && i < b.len() && (a[i] as u32) < (b[i] as u32) ==> text_before(a, b)
            && !text_before(b, a),
        i == a.len() && i < b.len() ==> text_before(a, b) && !text_before(b, a),
        i == a.len() && i == b.len() ==> !text_before(a, b),
    decreases i,
{
    if i > 0 {
        assert(a[0] == b[0]);
        let (x, y) = (a.skip(1), b.skip(1));
        assert forall|j: int| 0 <= j < i - 1 implies x[j] == y[j] by {
            assert(a[j + 1] == b[j + 1]);
        }
        law_first_difference_decides(x, y, i - 1);
        assert(i < a.len() ==> x[i - 1] == a[i]);
        assert(i < b.len() ==> y[i - 1] == b[i]);
    } else if a.len() > 0 && b.len() > 0 && (a[0] as u32) < (b[0] as u32) {
        assert(a[0] != b[0]);
    }
}

/// A follower gets the signals up to and on the last day that is paid for, and none
/// after it; one who is not active gets none. The days are compared at the first
/// character in which they differ.
pub proof fn law_followers_are_served_until_the_paid_day(f: Follower, day: Seq<char>, i: int)
    requires
        0 <= i <= day.len(),
        i <= f.paid_until@.len(),
        forall|j: int| 0 <= j < i ==> f.paid_until@[j] == day[j],
    ensures
        !f.active ==> !is_served(f, day),
        f.active && f.paid_until@ == day ==> is_served(f, day),
        f.active && i < day.len() && i < f.paid_until@.len() && (day[i] as u32) < (
        f.paid_until@[i] as u32) ==> is_served(f, day),
        i < day.len() && i < f.paid_until@.len() && (f.paid_until@[i] as u32) < (day[i] as u32)
            ==> !is_served(f, day),
{
    law_first_difference_decides(f.paid_until@, day, i);
    assert forall|j: int| 0 <= j < i implies day[j] == f.paid_until@[j] by {}
    law_first_difference_decides(day, f.paid_until@, i);
    law_first_difference_decides(day, day, day.len() as int);
}

/// Who is served is settled follower by follower, in their order.
pub proof fn law_each_follower_is_served_alone(
    a: Seq<Follower>,
    b: Seq<Follower>,
    f: Follower,
    day: Seq<char>,
)
    ensures
        served(a + b, day) == served(a, day) + served(b, day),
        served(seq![f], day) == if f.active && !text_before(f.paid_until@, day) {
            seq![f]
        } else {
            Seq::empty()
        },
    decreases b.len(),
{
    reveal_with_fuel(served, 2);
    assert(seq![f].drop_last() =~= Seq::empty());
    assert(Seq::<Follower>::empty().push(f) =~= seq![f]);
    if b.len() == 0 {
        assert(a + b =~= a);
        assert(served(a, day) + served(b, day) =~= served(a, day));
    } else {
        assert((a + b).drop_last() =~= a + b.drop_last());
        assert((a + b).last() == b.last());
        law_each_follower_is_served_alone(a, b.drop_last(), f, day);
        let (x, y) = (served(a, day), served(b.drop_last(), day));
        assert((x + y).push(b.last()) =~= x + y.push(b.last()));
    }
}

// Signals
/// A signal tells its trade: the executed price, the side in the exchange's word, nine
/// hundredths of the capital, and the time; its hash is the head of the signature of
/// symbol, side, price and time under the server's secret.
pub proof fn law_signal_tells_its_trade(
    s: TradeSignal<real>,
    trade: TradeRecord<real>,
    master_id: Seq<char>,
    secret: Seq<char>,
    now: Seq<char>,
)
    requires
        signals_trade(s, trade, master_id, secret, now),
    ensures
        s.master_id@ == master_id,
        s.symbol@ == trade.symbol@,
        trade.side is Buy <==> s.side@ == seq!['B', 'U', 'Y'],
        trade.side is Sell <==> s.side@ == seq!['S', 'E', 'L', 'L'],
        s.price == trade.exec_price,
        100 as real * s.qty_pct == 9 as real,
        s.timestamp@ == now,
        s.signal_hash@ == signature(
            secret,
            s.symbol@ + s.side@ + s.price.digits(6) + s.timestamp@,
        ).take(16),
{
    reveal_strlit("BUY");
    reveal_strlit("SELL");
    assert("BUY"@ =~= seq!['B', 'U', 'Y']);
    assert("SELL"@ =~= seq!['S', 'E', 'L', 'L']);
    assert("BUY"@.len() != "SELL"@.len());
    lemma_ratio_undone(9, 100);
}

/// A signal goes to those who are active and paid for the day, to each at their own
/// address and to no one else; it is counted and logged, and the followers stay.
pub proof fn law_signal_goes_to_the_served<S: Value>(
    before: CopyBroadcast<S>,
    after: CopyBroadcast<S>,
    trade: TradeRecord<S>,
    now: Seq<char>,
    day: Seq<char>,
    r: Dispatch<S>,
    i: int,
)
    requires
        before.sends_out(after, trade, now, day, r),
    ensures
        r.deliveries@.len() == served(before.state.followers@, day).len(),
        0 <= i < r.deliveries@.len() ==> ({
            let f = served(before.state.followers@, day)[i];
            &&& r.deliveries@[i].follower_id@ == f.id@
            &&& r.deliveries@[i].webhook_url@ == f.webhook_url@
            &&& f.active && !text_before(f.paid_until@, day)
            &&& before.state.followers@.contains(f)
        }),
        after.state.signal_log@.last() == r.signal,
        after.state.total_trades == before.state.total_trades + 1,
        after.state.followers == before.state.followers,
        after.state.master_id == before.state.master_id,
        after.state.secret == before.state.secret,
        after.state.fee_pct == before.state.fee_pct,
        r.signal.master_id@ == before.state.master_id@,
        r.signal.timestamp@ == now,
{
    crate::copytrade::law_served_are_followers(before.state.followers@, day);
}

/// The log keeps every signal until there are more than a thousand; then the oldest five
/// hundred leave, and the others stay in order.
pub proof fn law_log_drops_the_oldest<T>(log: Seq<T>, signal: T, i: int)
    ensures
        log.len() < 1000 ==> logged(log, signal) == log.push(signal),
        log.len() == 1000 ==> {
            &&& logged(log, signal).len() == 501
            &&& 500 <= i < 1000 ==> logged(log, signal)[i - 500] == log[i]
            &&& logged(log, signal)[500] == signal
        },
{
}

/// The statistics show the latest ten signals, the newest first.
pub proof fn law_recent_signals_come_newest_first<T>(log: Seq<T>, j: int)
    ensures
        recent(log).len() <= 10,
        log.len() <= 10 ==> recent(log).len() == log.len(),
        log.len() >= 10 ==> recent(log).len() == 10,
        0 <= j < recent(log).len() ==> recent(log)[j] == log[log.len() - 1 - j],
        log.len() > 0 ==> recent(log)[0] == log.last(),
{
}

// Answers
/// An address can be called if and only if it starts with the name of the protocol.
pub proof fn law_webhooks_start_with_their_protocol(url: Seq<char>)
    ensures
        is_webhook(url) <==> url.len() >= 4 && url[0] == 'h' && url[1] == 't' && url[2] == 't'
            && url[3] == 'p',
{
    reveal_strlit("http");
    assert("http"@ =~= seq!['h', 't', 't', 'p']);
    if is_webhook(url) {
        let t = url.take(4);
        assert(t[0] == 'h' && t[1] == 't' && t[2] == 't' && t[3] == 'p');
    }
    if url.len() >= 4 && url[0] == 'h' && url[1] == 't' && url[2] == 't' && url[3] == 'p' {
        assert(url.take(4) =~= "http"@);
    }
}

/// Registration takes whoever can be called: they come last, active, paid as they say,
/// without trades, and are told their identifier and the fee; no one else changes. Any
/// other address is refused, and nothing changes.
pub proof fn law_registration_takes_who_can_be_called<S: Value>(
    before: CopyTradeState<S>,
    after: CopyTradeState<S>,
    req: RegisterRequest,
    id: Seq<char>,
    registered: Seq<char>,
    r: Result<RegisterResponse<S>, Refusal>,
    i: int,
)
    requires
        before.registers(after, req, id, registered, r),
    ensures
        r is Ok <==> req.webhook_url@.len() >= 4 && req.webhook_url@[0] == 'h'
            && req.webhook_url@[1] == 't' && req.webhook_url@[2] == 't' && req.webhook_url@[3]
            == 'p',
        r matches Err(refusal) ==> refusal.code == 400 && after.followers == before.followers,
        r matches Ok(resp) ==> {
            let f = after.followers@.last();
            &&& after.followers@.len() == before.followers@.len() + 1
            &&& 0 <= i < before.followers@.len() ==> after.followers@[i] == before.followers@[i]
            &&& f.active && f.total_trades == 0
            &&& f.id@ == id && resp.follower_id@ == id
            &&& f.webhook_url@ == req.webhook_url@
            &&& f.paid_until@ == req.paid_until@
            &&& f.registered@ == registered
            &&& resp.fee_pct == before.fee_pct
        },
        after.total_trades == before.total_trades,
        after.signal_log == before.signal_log,
        after.master_id == before.master_id && after.secret == before.secret,
        after.fee_pct == before.fee_pct,
{
    law_webhooks_start_with_their_protocol(req.webhook_url@);
    if r is Ok {
        assert(0 <= i < before.followers@.len() ==> after.followers@.drop_last()[i]
            == after.followers@[i]);
    }
}

/// The greeting tells the address and the fee.
pub proof fn law_greeting_tells_address_and_fee<S: Value>(url: Seq<char>, fee_pct: S)
    ensures
        begins_with(greeting(url, fee_pct), "Registered! Master will broadcast signals to "@ + url),
        ends_with(greeting(url, fee_pct), fee_pct.digits(0) + "% of profits."@),
{
    let text = greeting(url, fee_pct);
    let head = "Registered! Master will broadcast signals to "@ + url;
    let tail = fee_pct.digits(0) + "% of profits."@;
    assert(text =~= head + ". Fee: "@ + tail);
    assert(text.take(head.len() as int) =~= head);
    assert(text.skip(text.len() - tail.len()) =~= tail);
}

/// A payment is noted if and only if the token is right and the follower known: then the
/// first with that identifier is active and paid until the given day, and all else of
/// them and all others stay. A wrong token is refused as such, an unknown follower as
/// such, and nothing changes.
pub proof fn law_payment_needs_token_and_follower<S: Value>(
    before: CopyTradeState<S>,
    after: CopyTradeState<S>,
    req: FeeVerifyRequest,
    token: Seq<char>,
    r: Result<(), Refusal>,
    i: int,
)
    requires
        before.marks_paid(after, req, token, r),
    ensures
        r is Ok ==> req.admin_token@ == token,
        r matches Err(refusal) ==> {
            &&& after.followers@ == before.followers@
            &&& refusal.code == 401 <==> req.admin_token@ != token
            &&& refusal.code == 404 <==> req.admin_token@ == token
            &&& refusal.code == 404 && 0 <= i < before.followers@.len()
                ==> before.followers@[i].id@ != req.follower_id@
        },
        before.followers@.len() == 0 ==> r is Err,
        req.admin_token@ == token && 0 <= i < before.followers@.len() && before.followers@[i].id@
            == req.follower_id@ ==> r is Ok,
        r is Ok && 0 <= i < before.followers@.len() ==> {
            let (old_f, new_f) = (before.followers@[i], after.followers@[i]);
            &&& after.followers@.len() == before.followers@.len()
            &&& new_f.id == old_f.id && new_f.webhook_url == old_f.webhook_url
            &&& new_f.total_trades == old_f.total_trades && new_f.registered == old_f.registered
            &&& old_f.id@ != req.follower_id@ ==> new_f == old_f
            &&& old_f.id@ == req.follower_id@ && (forall|j: int|
                0 <= j < i ==> (#[trigger] before.followers@[j]).id@ != req.follower_id@)
                ==> new_f.active && new_f.paid_until == req.paid_until
        },
        after.total_trades == before.total_trades,
        after.signal_log == before.signal_log,
        after.master_id == before.master_id && after.secret == before.secret,
        after.fee_pct == before.fee_pct,
{
    law_position_is_first(before.followers@, req.follower_id@);
}

/// The statistics tell the followers there are and those who are served on the day, the
/// trades, the fee and the newest signals.
pub proof fn law_statistics_tell_the_day<S: Value>(
    state: CopyTradeState<S>,
    r: StatsResponse<S>,
    day: Seq<char>,
)
    requires
        state.tells_stats(r, day),
    ensures
        r.followers == state.followers@.len(),
        r.active_followers <= r.followers,
        r.active_followers == served(state.followers@, day).len(),
        r.master_id@ == state.master_id@,
        r.total_trades == state.total_trades,
        r.fee_pct == state.fee_pct,
        r.recent_signals@.len() <= state.signal_log@.len(),
        state.signal_log@.len() > 0 ==> r.recent_signals@.len() > 0 && r.recent_signals@[0]
            == state.signal_log@.last(),
{
    law_served_are_followers(state.followers@, day);
    lemma_served_are_not_more(state.followers@, day);
}

proof fn lemma_served_are_not_more(followers: Seq<Follower>, day: Seq<char>)
    ensures
        served(followers, day).len() <= followers.len(),
    decreases followers.len(),
{
    if followers.len() > 0 {
        lemma_served_are_not_more(followers.drop_last(), day);
    }
}

/// The token that is asked for is the configured one where there is one.
pub proof fn law_configured_token_counts(token: String)
    ensures
        expected_token(Some(token)) == token@,
        expected_token(None) == seq!['c', 'h', 'a', 'n', 'g', 'e', 'm', 'e'],
{
    reveal_strlit("changeme");
    assert("changeme"@ =~= seq!['c', 'h', 'a', 'n', 'g', 'e', 'm', 'e']);
}

/// A new server has no followers and no signals, and the configured name, fee and, where
/// one is configured, secret; another name or fee leaves all else.
pub proof fn law_server_begins_without_followers<S: Value>(
    server: CopyTradeState<S>,
    master_id: String,
    fee_pct: S,
    secret: Option<String>,
    name: String,
    fee: S,
    day: Seq<char>,
)
    requires
        server.begins_as(master_id, fee_pct, secret),
    ensures
        server.followers@.len() == 0 && served(server.followers@, day).len() == 0,
        server.signal_log@.len() == 0 && server.total_trades == 0,
        server.master_id == master_id && server.fee_pct == fee_pct,
        secret matches Some(s) ==> server.secret == s,
        server.renamed(name, fee).master_id == name && server.renamed(name, fee).fee_pct == fee,
        server.renamed(name, fee).renamed(master_id, fee_pct) == server,
        server.renamed(name, fee).secret == server.secret,
{
}

/// The server listens on its port, on every interface.
pub proof fn law_server_listens_on_its_port(port: u16)
    ensures
        begins_with(address_of(port), "0.0.0.0:"@),
        worth_of(address_of(port).skip(8)) == port,
{
    reveal_strlit("0.0.0.0:");
    let a = address_of(port);
    assert(a.take(8) =~= "0.0.0.0:"@);
    assert(a.skip(8) =~= numeral(port as nat));
    law_numeral_reads_back(port as nat, port as nat, 0);
}

/// The date of a time is all but its last nine characters, so two times of a day have the
/// same date.
pub proof fn law_date_is_the_time_without_its_clock(day: Seq<char>, clock: Seq<char>)
    requires
        clock.len() == 9,
    ensures
        date_of(day + clock) == day,
        is_time(day + clock) ==> is_date(day) && clock[0] == 'T',
{
    let t = day + clock;
    assert(t.take(t.len() - 9) =~= day);
}

} // verus!
