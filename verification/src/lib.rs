//! Verified core of a floating stock/ETF quote widget: the persisted
//! configuration, the quote-service symbol mapping and response grammar, and
//! the widget's layout, menu and mouse decisions.

pub mod config;
pub mod stock;
pub mod text;
pub mod widget;
