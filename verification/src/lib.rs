//! Data-driven core of the X-Ray microstructure explorer.
//!
//! A validated [`XraySpec`] is folded over a recorded [`Dataset`] (trades,
//! order-book snapshots and diffs, funding, open interest, liquidations and
//! candles) into the render data-models of four panels: footprint, order-book
//! heatmap, liquidation map and funding/OI divergence.
//!
//! Prices, quantities and rates are IEEE-754 doubles. This crate carries them
//! as their bit patterns (`f64::to_bits`) and never does arithmetic on them:
//! it decides the windowing, ordering, bucketing, grouping, book
//! reconstruction and command handling, and leaves the floating-point steps to
//! its caller.

use vstd::prelude::*;

pub mod args;
pub mod book;
pub mod config;
pub mod dataset;
pub mod panels;
pub mod error;
pub mod json;
pub mod laws;
pub mod sort;
pub mod spec;
pub mod text;
pub mod types;
pub mod xray;

pub use types::{
    BookEvent, BookKind, FundingEvent, Level, LiqSide, LiquidationEvent, OiEvent, Side, Timed, Trade,
};
pub use dataset::{Candle, Dataset};
pub use error::{Error, Result};
pub use spec::{XrayPanel, XrayPanelKind, XraySpec};
pub use args::{Args, ArgsError, Format};
pub use book::BookState;
pub use config::Config;
pub use xray::{build_frame, Bounds, Xray, XrayFrame};

verus! {

/// The crate version.
pub open spec fn spec_version() -> Seq<char> {
    "0.1.1"@
}

/// The crate version, e.g. `"0.1.1"`.
pub fn version() -> (v: &'static str)
    ensures
        v@ == spec_version(),
{
    "0.1.1"
}

} // verus!
