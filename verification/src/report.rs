//! The report at the end of a session.
use vstd::prelude::*;

use crate::models::{OptResult, Side};
use crate::number::{total, Number, Value};
use crate::optimizer::{best_of, best_run};
use crate::paper::{count_side, values_of, PaperTrader};
use crate::risk::{drawdown_from, Risk, RiskManager};

verus! {

/// The figures of a session.
#[derive(Debug, Clone)]
pub struct SessionReport<S> {
    pub value: S,
    pub pnl: S,
    pub pnl_pct: S,
    pub drawdown_pct: S,
    pub peak: S,
    pub total_trades: u64,
    pub buys: usize,
    pub sells: usize,
    pub volume: S,
    pub slippage: S,
    /// For each result of the optimizer whether its target is the best one.
    pub best: Vec<bool>,
}

/// Whether two numbers compare as equal.
pub open spec fn same_number<S: Value>(a: S, b: S) -> bool {
    a.at_most(b) && b.at_most(a)
}

/// The profit target of the best result; zero where there is none.
pub open spec fn best_target<S: Value>(opt: Seq<OptResult<S>>) -> S {
    if opt.len() == 0 {
        S::count(0)
    } else {
        opt[best_of(opt)].profit_target_pct
    }
}

/// Whether a report tells a session that began with some capital, at its last price.
pub open spec fn tells_session<S: Value>(
    r: SessionReport<S>,
    paper: PaperTrader<S>,
    risk: Risk<S>,
    initial: S,
    final_price: S,
    opt: Seq<OptResult<S>>,
) -> bool {
    &&& r.value == paper.value_at(final_price)
    &&& r.pnl == r.value.diff(initial)
    &&& r.pnl_pct == r.pnl.quot(initial).prod(S::count(100))
    &&& r.drawdown_pct == drawdown_from(risk.peak, r.value)
    &&& r.peak == risk.peak
    &&& r.total_trades == paper.counter
    &&& r.buys == count_side(paper.trades@, Side::Buy)
    &&& r.sells == count_side(paper.trades@, Side::Sell)
    &&& r.volume == total(values_of(paper.trades@))
    &&& r.slippage == paper.total_slip
    &&& r.best@ == Seq::new(
        opt.len(),
        |i: int| same_number(opt[i].profit_target_pct, best_target(opt)),
    )
}

/// The figures of a session that began with some capital, at its last price.
pub fn session_report<S: Number>(
    paper: &PaperTrader<S>,
    risk: &RiskManager<S>,
    initial: S,
    final_price: S,
    opt: &[OptResult<S>],
) -> (r: SessionReport<S>)
    ensures
        tells_session(r, *paper, risk@, initial, final_price, opt@),
{
    let value = paper.total_value(final_price);
    let pnl = value.minus(initial);
    let (total_trades, buys, sells, volume, slippage) = paper.stats();
    let target = match best_run(opt) {
        Some(i) => opt[i].profit_target_pct,
        None => S::from_u64(0),
    };
    let mut best: Vec<bool> = Vec::new();
    let mut i: usize = 0;
    while i < opt.len()
        invariant
            i <= opt@.len(),
            target == best_target(opt@),
            best@ == Seq::new(
                i as nat,
                |j: int| same_number(opt@[j].profit_target_pct, best_target(opt@)),
            ),
        decreases opt.len() - i,
    {
        let t = opt[i].profit_target_pct;
        best.push(t.le(target) && target.le(t));
        i += 1;
        assert(best@ =~= Seq::new(
            i as nat,
            |j: int| same_number(opt@[j].profit_target_pct, best_target(opt@)),
        ));
    }
    SessionReport {
        value,
        pnl,
        pnl_pct: pnl.over(initial).times(S::from_u64(100)),
        drawdown_pct: risk.drawdown_pct(value),
        peak: risk.peak_capital,
        total_trades,
        buys,
        sells,
        volume,
        slippage,
        best,
    }
}

} // verus!
