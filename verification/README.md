# SPD Grid Bot

An adaptive grid trading bot for the Binance exchange. Everything the bot
decides or computes is a Verus library: each function states in its contract
what it returns or changes, and Verus proves it. The formulas are proved over the
operations of a number type, whatever they give. The program runs on binary64
(`app/float.rs`), which is itself outside the proofs: that the formulas apply its
operations as stated is proved, what the operations give is not.

## Layout

- `src/` — the library.
  - `number` — the arithmetic that every formula is written over, as a trait;
    `fixed` is a verified implementation, and `exact` are the real numbers, over
    which the formulas are looked at without rounding.
  - `models` — candles, wick profiles, market states, trades, signals.
  - `config` — the configuration, its defaults and its validation.
  - `analyzer` — ATR, RSI, EMA, trend signal, regime, spread, latencies.
  - `grid` — the grid of buy and sell levels; `fixed_grid` says what rounding to
    ten-millionths leaves of its laws.
  - `risk` — position sizes, loss, drawdown and profit limits, safety switch.
  - `paper` — slippage, fills and the trade history.
  - `optimizer` — the sweep over profit targets.
  - `course` — what holds over any number of prices.
  - `backtest`, `live`, `report` — sessions, tick by tick, and their figures.
  - `network`, `trader`, `copytrade` — the price feed, signed orders, and the
    copy-trade server, as states that take events and say what to do.
  - `signing`, `stamp`, `text` — signatures, identifiers and times, texts.
- `tests/` — the library on concrete values, over binary64 and fixed point.
- `app/` — the program: files, network, clock and printing.

## Running

Edit `config.toml`:

```toml
symbol        = "BNBUSDT"
total_capital = 20.0
grid_levels   = 8

max_loss_pct      = 5.0
max_drawdown_pct  = 8.0
profit_target_pct = 15.0
```

`mode` is `paper` (the default), `live` or `backtest`. A session takes up changes
of the file without a restart, once per rebuild period, where the new
configuration is sound; its pair, its capital and the port of a server that runs
stay what they were at the start. A session in live mode can be taken out of it,
which ends its orders; no session is taken into it. Live mode needs
`BINANCE_API_KEY` and `BINANCE_API_SECRET` in the environment; a backtest reads
`data.json`, and prints the fills that are still in its history.

With `copy_trade = true` the bot serves:

```
GET  /health      — liveness check
GET  /stats       — public performance stats
POST /register    — follower registration
POST /verify-fee  — admin: mark payment received
```
