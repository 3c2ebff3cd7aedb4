//! Walk-forward backtesting of the Hyped Log-Periodic Power Law (HLPPL) bubble model.
//!
//! A price that runs ahead of itself is fitted with a log-periodic power law; how far it
//! stands from the fitted curve, moved by trading volume and by momentum, is its bubble
//! score. The score decides positions, and positions earn or lose an equity. All of that is
//! computed here on binary64 numbers held as bit patterns ([`binary64`]), so that every
//! figure is stated exactly.
//!
//! Downloads, the solution of the linear part of a fit, transcendental functions and
//! drawing are left to the caller: the library says what it needs ([`search`],
//! [`hlppl_signals`], [`fast_signals`], [`prediction`]) and takes the outcome.

pub mod accuracy;
pub mod backtest;
pub mod backtest_laws;
pub mod binary64;
pub mod bubble_score;
pub mod charts;
pub mod cli;
pub mod confidence;
pub mod confidence_laws;
pub mod config;
pub mod constant_laws;
pub mod constants;
pub mod counting;
pub mod data;
pub mod data_laws;
pub mod dates;
pub mod desktop;
pub mod engine;
pub mod engine_laws;
pub mod explorer;
pub mod fast_signals;
pub mod fit_laws;
pub mod forecast_laws;
pub mod form;
pub mod hlppl_signals;
pub mod hype;
pub mod lppl;
pub mod order;
pub mod prediction;
pub mod rounding;
pub mod search;
pub mod sentiment;
pub mod settings_laws;
pub mod signal_laws;
pub mod stats;
pub mod text;
pub mod text_laws;
pub mod utils;
pub mod view_laws;
pub mod walk_laws;

pub use backtest::{run_backtest, BacktestResult, DailySignal};
pub use bubble_score::{compute_bubble_score, normalize_last_residual};
pub use config::{BacktestConfig, PositionBias, RunMode, SignalMode};
pub use data::PriceBar;
pub use engine::{HlpplEngine, Trade};
pub use hype::compute_volume_hype;
pub use lppl::{LpplFit, LpplParams};
pub use sentiment::compute_simple_sentiment;
pub use utils::{build_equity_series, build_regime_price_segments, build_score_series};
