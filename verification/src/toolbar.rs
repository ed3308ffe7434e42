//! The trading metrics of the toolbar, each with its own popup.

use vstd::prelude::*;

verus! {

/// A trading metric: take profit, stop loss, leverage.
#[derive(Clone, Copy, Debug, PartialEq, Eq, Structural)]
pub enum TradeMetric {
    Tp,
    Sl,
    Lev,
}

impl TradeMetric {
    /// Element id of the metric's button.
    pub fn id(self) -> (r: &'static str)
        ensures
            r@ == (match self {
                TradeMetric::Tp => "toolbar-tp"@,
                TradeMetric::Sl => "toolbar-sl"@,
                TradeMetric::Lev => "toolbar-lev"@,
            }),
    {
        match self {
            TradeMetric::Tp => "toolbar-tp",
            TradeMetric::Sl => "toolbar-sl",
            TradeMetric::Lev => "toolbar-lev",
        }
    }

    /// Short label on the button.
    pub fn label(self) -> (r: &'static str)
        ensures
            r@ == (match self {
                TradeMetric::Tp => "TP"@,
                TradeMetric::Sl => "SL"@,
                TradeMetric::Lev => "Lev"@,
            }),
    {
        match self {
            TradeMetric::Tp => "TP",
            TradeMetric::Sl => "SL",
            TradeMetric::Lev => "Lev",
        }
    }

    /// Unit of the value: times for leverage, percent otherwise.
    pub fn unit(self) -> (r: &'static str)
        ensures
            r@ == (match self {
                TradeMetric::Lev => "×"@,
                _ => "%"@,
            }),
    {
        match self {
            TradeMetric::Lev => "×",
            _ => "%",
        }
    }

    /// Localisation key of the popup's title.
    pub fn title_key(self) -> (r: &'static str)
        ensures
            r@ == (match self {
                TradeMetric::Tp => "toolbar.tp_title"@,
                TradeMetric::Sl => "toolbar.sl_title"@,
                TradeMetric::Lev => "toolbar.lev_title"@,
            }),
    {
        match self {
            TradeMetric::Tp => "toolbar.tp_title",
            TradeMetric::Sl => "toolbar.sl_title",
            TradeMetric::Lev => "toolbar.lev_title",
        }
    }
}

} // verus!
