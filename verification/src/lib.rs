pub mod account_laws;
pub mod analyzer;
pub mod backtest;
pub mod backtest_laws;
pub mod config;
pub mod copy_laws;
pub mod copytrade;
pub mod course;
pub mod exact;
pub mod exchange_laws;
pub mod fixed;
pub mod fixed_grid;
pub mod fixed_laws;
pub mod grid;
pub mod grid_laws;
pub mod limit_laws;
pub mod live;
pub mod market_laws;
pub mod models;
pub mod network;
pub mod number;
pub mod optimizer;
pub mod paper;
pub mod report;
pub mod risk;
pub mod search_laws;
pub mod session_laws;
pub mod signing;
pub mod stamp;
pub mod text;
pub mod trader;
