//! The `XraySpec`: a symbol, a time window and the panels to build.

use vstd::prelude::*;

use crate::error::{Error, ErrorView, Result};
use crate::types::{is_positive_finite, spec_is_positive_finite};

verus! {

/// Which microstructure panel a spec entry selects.
#[derive(Clone, Copy, Debug, PartialEq, Eq, Structural)]
pub enum XrayPanelKind {
    /// Per-price-bin buy/sell volume.
    Footprint,
    /// Resting book quantity per (time, price) cell.
    BookHeatmap,
    /// Liquidation events by price and size.
    LiquidationMap,
    /// Funding-rate vs open-interest divergence.
    FundingOiDivergence,
}

/// A panel entry with its per-kind parameters. Price bins are bits of doubles.
#[derive(Clone, Copy, Debug, PartialEq, Eq, Structural)]
pub enum XrayPanel {
    /// Per-price-bin buy/sell volume.
    Footprint {
        /// Price bin width (`> 0`).
        price_bin: u64,
        /// Time bucket width in ms (`> 0`).
        bucket_ms: i64,
    },
    /// Resting book quantity per (time, price) cell.
    BookHeatmap {
        /// Price bin width (`> 0`).
        price_bin: u64,
        /// Time bucket width in ms (`> 0`).
        bucket_ms: i64,
        /// Number of bins around the mid per column (`> 0`).
        depth_levels: u32,
    },
    /// Liquidation events by price and size.
    LiquidationMap {
        /// Price bin width (`> 0`).
        price_bin: u64,
    },
    /// Funding-rate vs open-interest divergence.
    FundingOiDivergence {
        /// Time bucket width in ms (`> 0`).
        bucket_ms: i64,
    },
}

/// The default price bin width, `1.0` (as the bits of a double).
pub fn def_bin() -> (b: u64)
    ensures
        b == 0x3FF0_0000_0000_0000u64,
{
    0x3FF0_0000_0000_0000u64
}

/// The default time bucket width, one minute.
pub fn def_bucket() -> (b: i64)
    ensures
        b == 60_000,
{
    60_000
}

/// The default number of heatmap price bins.
pub fn def_depth() -> (d: u32)
    ensures
        d == 40,
{
    40
}

/// The first failed check of a panel's parameters, as the error detail.
pub open spec fn panel_error(p: XrayPanel) -> Option<Seq<char>> {
    match p {
        XrayPanel::Footprint { price_bin, bucket_ms } => {
            if !spec_is_positive_finite(price_bin) {
                Some("footprint price_bin"@ + " must be a positive number"@)
            } else if bucket_ms <= 0 {
                Some("footprint bucket_ms must be > 0"@)
            } else {
                None
            }
        },
        XrayPanel::BookHeatmap { price_bin, bucket_ms, depth_levels } => {
            if !spec_is_positive_finite(price_bin) {
                Some("book_heatmap price_bin"@ + " must be a positive number"@)
            } else if bucket_ms <= 0 {
                Some("book_heatmap bucket_ms must be > 0"@)
            } else if depth_levels == 0 {
                Some("book_heatmap depth_levels must be > 0"@)
            } else {
                None
            }
        },
        XrayPanel::LiquidationMap { price_bin } => {
            if !spec_is_positive_finite(price_bin) {
                Some("liquidation_map price_bin"@ + " must be a positive number"@)
            } else {
                None
            }
        },
        XrayPanel::FundingOiDivergence { bucket_ms } => {
            if bucket_ms <= 0 {
                Some("funding_oi_divergence bucket_ms must be > 0"@)
            } else {
                None
            }
        },
    }
}

/// The error detail of the first panel (in order) whose parameters fail.
pub open spec fn first_panel_error(ps: Seq<XrayPanel>) -> Option<Seq<char>>
    decreases ps.len(),
{
    if ps.len() == 0 {
        None
    } else if panel_error(ps[0]) is Some {
        panel_error(ps[0])
    } else {
        first_panel_error(ps.drop_first())
    }
}

/// `r` is `Ok` exactly when `err` is `None`, and otherwise the `BadSpec`
/// error whose detail is `err`.
pub open spec fn reports(r: Result<()>, err: Option<Seq<char>>) -> bool {
    match err {
        None => r is Ok,
        Some(m) => r matches Err(e) && e@ == ErrorView::BadSpec(m),
    }
}

/// Rejects a parameter that is not a finite positive number.
fn require_positive(value: u64, what: &str) -> (r: Result<()>)
    ensures
        spec_is_positive_finite(value) ==> r is Ok,
        !spec_is_positive_finite(value) ==> (r matches Err(e) && e@ == ErrorView::BadSpec(
            what@ + " must be a positive number"@,
        )),
{
    if is_positive_finite(value) {
        Ok(())
    } else {
        Err(Error::BadSpec(String::from_str(what).concat(" must be a positive number")))
    }
}

impl XrayPanel {
    /// The kind of this panel.
    pub open spec fn spec_kind(self) -> XrayPanelKind {
        match self {
            XrayPanel::Footprint { .. } => XrayPanelKind::Footprint,
            XrayPanel::BookHeatmap { .. } => XrayPanelKind::BookHeatmap,
            XrayPanel::LiquidationMap { .. } => XrayPanelKind::LiquidationMap,
            XrayPanel::FundingOiDivergence { .. } => XrayPanelKind::FundingOiDivergence,
        }
    }

    /// The kind discriminant of this panel.
    pub fn kind(&self) -> (k: XrayPanelKind)
        ensures
            k == self.spec_kind(),
    {
        match self {
            XrayPanel::Footprint { .. } => XrayPanelKind::Footprint,
            XrayPanel::BookHeatmap { .. } => XrayPanelKind::BookHeatmap,
            XrayPanel::LiquidationMap { .. } => XrayPanelKind::LiquidationMap,
            XrayPanel::FundingOiDivergence { .. } => XrayPanelKind::FundingOiDivergence,
        }
    }

    /// Checks the panel's parameters: price bins finite and positive, bucket
    /// widths and depth positive.
    pub fn validate(&self) -> (r: Result<()>)
        ensures
            reports(r, panel_error(*self)),
    {
        match *self {
            XrayPanel::Footprint { price_bin, bucket_ms } => {
                require_positive(price_bin, "footprint price_bin")?;
                if bucket_ms <= 0 {
                    return Err(Error::bad_spec("footprint bucket_ms must be > 0"));
                }
            },
            XrayPanel::BookHeatmap { price_bin, bucket_ms, depth_levels } => {
                require_positive(price_bin, "book_heatmap price_bin")?;
                if bucket_ms <= 0 {
                    return Err(Error::bad_spec("book_heatmap bucket_ms must be > 0"));
                }
                if depth_levels == 0 {
                    return Err(Error::bad_spec("book_heatmap depth_levels must be > 0"));
                }
            },
            XrayPanel::LiquidationMap { price_bin } => {
                require_positive(price_bin, "liquidation_map price_bin")?;
            },
            XrayPanel::FundingOiDivergence { bucket_ms } => {
                if bucket_ms <= 0 {
                    return Err(Error::bad_spec("funding_oi_divergence bucket_ms must be > 0"));
                }
            },
        }
        Ok(())
    }
}

/// The data-driven input to a build.
#[derive(Clone, Debug, PartialEq, Eq)]
pub struct XraySpec {
    /// Logical dataset name; the front-end resolves it to files.
    pub dataset_ref: String,
    /// The symbol, e.g. `"BTCUSDT"`.
    pub symbol: String,
    /// Inclusive window start in ms; `None` = dataset start.
    pub from_ts: Option<i64>,
    /// Inclusive window end in ms; `None` = dataset end.
    pub to_ts: Option<i64>,
    /// The panels to build (at least one); the frame keeps this order.
    pub panels: Vec<XrayPanel>,
}

/// The mathematical content of an [`XraySpec`].
pub struct XraySpecView {
    pub dataset_ref: Seq<char>,
    pub symbol: Seq<char>,
    pub from_ts: Option<i64>,
    pub to_ts: Option<i64>,
    pub panels: Seq<XrayPanel>,
}

impl View for XraySpec {
    type V = XraySpecView;

    open spec fn view(&self) -> XraySpecView {
        XraySpecView {
            dataset_ref: self.dataset_ref@,
            symbol: self.symbol@,
            from_ts: self.from_ts,
            to_ts: self.to_ts,
            panels: self.panels@,
        }
    }
}

impl XraySpecView {
    /// The detail of the first failed structural check, or `None` when the
    /// spec is valid: a non-empty symbol, at least one panel, `from_ts <=
    /// to_ts` when both are set, and valid panel parameters.
    pub open spec fn error(self) -> Option<Seq<char>> {
        if self.symbol.len() == 0 {
            Some("symbol must not be empty"@)
        } else if self.panels.len() == 0 {
            Some("panels must not be empty"@)
        } else if self.from_ts is Some && self.to_ts is Some && self.from_ts->0 > self.to_ts->0 {
            Some("from_ts must be <= to_ts"@)
        } else {
            first_panel_error(self.panels)
        }
    }

    /// Whether the spec passes validation.
    pub open spec fn valid(self) -> bool {
        self.error() is None
    }
}

impl XraySpec {
    /// Structural validation: non-empty symbol and panels, positive panel
    /// parameters, and a well-ordered window. The first failed check is
    /// reported.
    pub fn validate(&self) -> (r: Result<()>)
        ensures
            reports(r, self@.error()),
    {
        if self.symbol.as_str().is_empty() {
            return Err(Error::bad_spec("symbol must not be empty"));
        }
        if self.panels.len() == 0 {
            return Err(Error::bad_spec("panels must not be empty"));
        }
        if let (Some(from), Some(to)) = (self.from_ts, self.to_ts) {
            if from > to {
                return Err(Error::bad_spec("from_ts must be <= to_ts"));
            }
        }
        let mut i: usize = 0;
        assert(self.panels@.skip(0) =~= self.panels@);
        while i < self.panels.len()
            invariant
                i <= self.panels@.len(),
                self@.error() == first_panel_error(self.panels@),
                first_panel_error(self.panels@) == first_panel_error(self.panels@.skip(i as int)),
            decreases self.panels.len() - i,
        {
            let r = self.panels[i].validate();
            assert(self.panels@.skip(i as int)[0] == self.panels@[i as int]);
            if r.is_err() {
                assert(first_panel_error(self.panels@.skip(i as int)) == panel_error(self.panels@[i as int]));
                return r;
            }
            assert(self.panels@.skip(i as int).drop_first() =~= self.panels@.skip(i + 1));
            i = i + 1;
        }
        assert(self.panels@.skip(i as int).len() == 0);
        Ok(())
    }
}

} // verus!
