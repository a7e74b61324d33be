//! The configuration: defaults, validation and the mode of operation.
use vstd::prelude::*;

use crate::number::{lit, ratio, Number, Value};
use crate::text::{lower_case, same_text, to_lower};

verus! {

#[derive(Debug, Clone)]
pub struct BotConfig<S> {
    // Trading pair
    pub symbol: String,
    pub total_capital: S,
    pub grid_levels: usize,
    // Risk
    pub max_loss_pct: S,
    pub max_drawdown_pct: S,
    pub profit_target_pct: S,
    pub max_single_trade_pct: S,
    pub min_notional_usdt: S,
    // Execution
    pub slippage_pct: S,
    // Grid rebuild
    pub grid_rebuild_ticks: u64,
    pub atr_rebuild_threshold_pct: S,
    pub atr_outlier_cap_pct: S,
    // Network
    pub rate_limit_per_sec: u64,
    pub max_retries: u32,
    pub retry_base_sec: u64,
    pub latency_buf_size: usize,
    pub max_trade_history: usize,
    // Logging
    pub heartbeat_secs: u64,
    pub status_secs: u64,
    // Copy-trade server
    pub copy_trade_enabled: bool,
    pub copy_trade_port: u16,
    /// The share of a follower's profit that goes to the master, in percent.
    pub fee_pct: S,
    /// The master's wallet for fee payments.
    pub master_id: String,
    // Mode
    /// "live", "paper" or "backtest".
    pub mode: String,
}

// What a configuration file may leave out
pub fn d_atr_rebuild<S: Number>() -> (r: S)
    ensures
        r == S::count(15),
{
    S::from_u64(15)
}

pub fn d_atr_cap<S: Number>() -> (r: S)
    ensures
        r == S::count(5),
{
    S::from_u64(5)
}

pub fn d_heartbeat() -> (r: u64)
    ensures
        r == 30,
{
    30
}

pub fn d_status() -> (r: u64)
    ensures
        r == 30,
{
    30
}

pub fn d_false() -> (r: bool)
    ensures
        r == false,
{
    false
}

pub fn d_ct_port() -> (r: u16)
    ensures
        r == 8080,
{
    8080
}

pub fn d_fee_pct<S: Number>() -> (r: S)
    ensures
        r == S::count(10),
{
    S::from_u64(10)
}

pub fn d_empty() -> (r: String)
    ensures
        r@ == ""@,
{
    "".to_owned()
}

pub fn d_paper() -> (r: String)
    ensures
        r@ == "paper"@,
{
    "paper".to_owned()
}

/// The characters of each text.
pub open spec fn texts(v: Seq<String>) -> Seq<Seq<char>> {
    Seq::new(v.len(), |i: int| v[i]@)
}

/// The message, where the fault is there.
pub open spec fn fault(found: bool, message: Seq<char>) -> Seq<Seq<char>> {
    if found {
        seq![message]
    } else {
        Seq::empty()
    }
}

/// Puts the message to the others, where the fault is there.
fn note(errs: &mut Vec<String>, found: bool, message: &str)
    ensures
        texts(final(errs)@) == texts(old(errs)@) + fault(found, message@),
{
    if found {
        errs.push(message.to_owned());
    }
    assert(texts(errs@) =~= texts(old(errs)@) + fault(found, message@));
}

impl<S: Number> Default for BotConfig<S> {
    fn default() -> (r: Self)
        ensures
            r.is_default(),
    {
        BotConfig {
            symbol: "BNBUSDT".to_owned(),
            total_capital: S::from_u64(20),
            grid_levels: 8,
            max_loss_pct: S::from_u64(5),
            max_drawdown_pct: S::from_u64(8),
            profit_target_pct: S::from_u64(1),
            max_single_trade_pct: lit(9, 100),
            min_notional_usdt: S::from_u64(5),
            slippage_pct: lit(5, 10_000),
            grid_rebuild_ticks: 240,
            atr_rebuild_threshold_pct: S::from_u64(15),
            atr_outlier_cap_pct: S::from_u64(5),
            rate_limit_per_sec: 10,
            max_retries: 5,
            retry_base_sec: 2,
            latency_buf_size: 100,
            max_trade_history: 10_000,
            heartbeat_secs: 30,
            status_secs: 60,
            copy_trade_enabled: false,
            copy_trade_port: 8080,
            fee_pct: S::from_u64(10),
            master_id: "".to_owned(),
            mode: "paper".to_owned(),
        }
    }
}

impl<S: Value> BotConfig<S> {
    /// The configuration that stands where no file can be read.
    pub open spec fn is_default(self) -> bool {
        &&& self.symbol@ == "BNBUSDT"@
        &&& self.total_capital == S::count(20)
        &&& self.grid_levels == 8
        &&& self.max_loss_pct == S::count(5)
        &&& self.max_drawdown_pct == S::count(8)
        &&& self.profit_target_pct == S::count(1)
        &&& self.max_single_trade_pct == ratio::<S>(9, 100)
        &&& self.min_notional_usdt == S::count(5)
        &&& self.slippage_pct == ratio::<S>(5, 10_000)
        &&& self.grid_rebuild_ticks == 240
        &&& self.atr_rebuild_threshold_pct == S::count(15)
        &&& self.atr_outlier_cap_pct == S::count(5)
        &&& self.rate_limit_per_sec == 10
        &&& self.max_retries == 5
        &&& self.retry_base_sec == 2
        &&& self.latency_buf_size == 100
        &&& self.max_trade_history == 10_000
        &&& self.heartbeat_secs == 30
        &&& self.status_secs == 60
        &&& !self.copy_trade_enabled
        &&& self.copy_trade_port == 8080
        &&& self.fee_pct == S::count(10)
        &&& self.master_id@ == ""@
        &&& self.mode@ == "paper"@
    }

    /// Whether this is the configuration that was read, or the default where none was.
    pub open spec fn is_read_from(self, read: Option<Self>) -> bool {
        match read {
            Some(cfg) => self == cfg,
            None => self.is_default(),
        }
    }

    pub open spec fn capital_is_bad(self) -> bool {
        self.total_capital.at_most(S::count(0))
    }

    pub open spec fn levels_are_bad(self) -> bool {
        self.grid_levels < 2 || self.grid_levels % 2 != 0
    }

    pub open spec fn max_loss_is_bad(self) -> bool {
        !(S::count(0).below(self.max_loss_pct) && self.max_loss_pct.below(S::count(100)))
    }

    pub open spec fn single_trade_is_bad(self) -> bool {
        !(S::count(0).below(self.max_single_trade_pct) && self.max_single_trade_pct.at_most(
            S::count(1),
        ))
    }

    pub open spec fn slippage_is_bad(self) -> bool {
        self.slippage_pct.below(S::count(0)) || ratio::<S>(1, 100).below(self.slippage_pct)
    }

    pub open spec fn notional_is_bad(self) -> bool {
        self.min_notional_usdt.below(S::count(1))
    }

    /// Live trading needs both keys of the exchange.
    pub open spec fn keys_are_missing(self, key: Seq<char>, secret: Seq<char>) -> bool {
        self.mode@ == "live"@ && (key.len() == 0 || secret.len() == 0)
    }

    /// Every fault of the configuration, in the order in which they are
    /// reported.
    pub open spec fn faults(self, key: Seq<char>, secret: Seq<char>) -> Seq<Seq<char>> {
        fault(self.capital_is_bad(), "total_capital must be > 0"@) + fault(
            self.levels_are_bad(),
            "grid_levels must be even and ≥ 2"@,
        ) + fault(self.max_loss_is_bad(), "max_loss_pct must be 0..100"@) + fault(
            self.single_trade_is_bad(),
            "max_single_trade_pct must be 0..1"@,
        ) + fault(self.slippage_is_bad(), "slippage_pct must be 0..0.01"@) + fault(
            self.notional_is_bad(),
            "min_notional_usdt must be ≥ 1"@,
        ) + fault(
            self.keys_are_missing(key, secret),
            "LIVE mode requires BINANCE_API_KEY + BINANCE_API_SECRET in .env"@,
        )
    }

    /// Whether the bot may start with the configuration and the keys.
    pub open spec fn is_sound(self, key: Seq<char>, secret: Seq<char>) -> bool {
        &&& !self.capital_is_bad()
        &&& !self.levels_are_bad()
        &&& !self.max_loss_is_bad()
        &&& !self.single_trade_is_bad()
        &&& !self.slippage_is_bad()
        &&& !self.notional_is_bad()
        &&& !self.keys_are_missing(key, secret)
    }
}

impl<S: Number> BotConfig<S> {
    /// The configuration that was read, or the defaults where none could be.
    pub fn load(read: Option<Self>) -> (r: Self)
        ensures
            r.is_read_from(read),
    {
        match read {
            Some(cfg) => cfg,
            None => BotConfig::default(),
        }
    }

    /// The faults of the configuration; `key` and `secret` are the exchange
    /// keys of the environment, empty where they are not set.
    pub fn validate(&self, key: &str, secret: &str) -> (r: Vec<String>)
        ensures
            texts(r@) == self.faults(key@, secret@),
            r@.len() == 0 <==> self.is_sound(key@, secret@),
    {
        let mut errs: Vec<String> = Vec::new();
        assert(texts(errs@) =~= Seq::<Seq<char>>::empty());
        note(
            &mut errs,
            self.total_capital.le(S::from_u64(0)),
            "total_capital must be > 0",
        );
        assert(texts(errs@) =~= fault(self.capital_is_bad(), "total_capital must be > 0"@));
        note(
            &mut errs,
            self.grid_levels < 2 || self.grid_levels % 2 != 0,
            "grid_levels must be even and ≥ 2",
        );
        note(
            &mut errs,
            !(S::from_u64(0).lt(self.max_loss_pct) && self.max_loss_pct.lt(S::from_u64(100))),
            "max_loss_pct must be 0..100",
        );
        note(
            &mut errs,
            !(S::from_u64(0).lt(self.max_single_trade_pct) && self.max_single_trade_pct.le(
                S::from_u64(1),
            )),
            "max_single_trade_pct must be 0..1",
        );
        note(
            &mut errs,
            self.slippage_pct.lt(S::from_u64(0)) || lit::<S>(1, 100).lt(self.slippage_pct),
            "slippage_pct must be 0..0.01",
        );
        note(
            &mut errs,
            self.min_notional_usdt.lt(S::from_u64(1)),
            "min_notional_usdt must be ≥ 1",
        );
        note(
            &mut errs,
            self.is_live() && (key.is_empty() || secret.is_empty()),
            "LIVE mode requires BINANCE_API_KEY + BINANCE_API_SECRET in .env",
        );
        assert(errs@.len() == texts(errs@).len());
        errs
    }

    pub fn symbol_lower(&self) -> (r: String)
        ensures
            r@ == lower_case(self.symbol@),
    {
        to_lower(self.symbol.as_str())
    }

    pub fn is_live(&self) -> (r: bool)
        ensures
            r == (self.mode@ == "live"@),
    {
        same_text(self.mode.as_str(), "live")
    }

    pub fn is_paper(&self) -> (r: bool)
        ensures
            r == (self.mode@ == "paper"@),
    {
        same_text(self.mode.as_str(), "paper")
    }

    pub fn is_backtest(&self) -> (r: bool)
        ensures
            r == (self.mode@ == "backtest"@),
    {
        same_text(self.mode.as_str(), "backtest")
    }

    /// A copy of the configuration.
    pub fn duplicate(&self) -> (r: Self)
        ensures
            r == *self,
    {
        BotConfig {
            symbol: self.symbol.clone(),
            master_id: self.master_id.clone(),
            mode: self.mode.clone(),
            ..*self
        }
    }
}

/// A configuration names at most one mode.
pub proof fn law_modes_exclude_each_other<S: Value>(cfg: BotConfig<S>)
    ensures
        !(cfg.mode@ == "live"@ && cfg.mode@ == "paper"@),
        !(cfg.mode@ == "live"@ && cfg.mode@ == "backtest"@),
        !(cfg.mode@ == "paper"@ && cfg.mode@ == "backtest"@),
{
    reveal_strlit("live");
    reveal_strlit("paper");
    reveal_strlit("backtest");
    assert("live"@.len() == 4);
    assert("paper"@.len() == 5);
    assert("backtest"@.len() == 8);
}

/// Outside live mode the exchange keys play no part in validation: no key is
/// needed.
pub proof fn law_keys_matter_only_live<S: Value>(
    cfg: BotConfig<S>,
    key: Seq<char>,
    secret: Seq<char>,
)
    requires
        cfg.mode@ != "live"@,
    ensures
        cfg.faults(key, secret) == cfg.faults(Seq::empty(), Seq::empty()),
        cfg.is_sound(key, secret) == cfg.is_sound(Seq::empty(), Seq::empty()),
{
}

} // verus!
