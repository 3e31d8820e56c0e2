//! Usage statistics for the transcript files of a coding assistant.
//!
//! The core has no UI and reads no file itself. It:
//! - locates the projects directory ([`discovery`], [`product`]),
//! - incrementally scans transcript JSONL files ([`scanner`], [`parse`]),
//! - de-duplicates streamed assistant records by API message id ([`store`]),
//! - aggregates tokens by day / session / model and finds what they are charged
//!   ([`aggregate`], [`pricing`]),
//! - reads and keeps the rate-limit snapshot of the statusline hook ([`snapshot`], [`hook`]),
//! - reads the account limits ([`limits`]).
//!
//! On top of it stand the decisions of the programs that use it: the command line tool
//! ([`cli`]), the background data thread ([`data`]), and the panel that slides down at the top
//! of a display ([`view`], [`render`], [`tracker`], [`panel`], [`monitors`], [`settings`],
//! [`settings_ui`]).
//!
//! Amounts of money and percentages are of any type `P`: they are carried along, never computed
//! with. Cost figures are estimates at list price, not billing data.

pub mod aggregate;
pub mod cli;
pub mod data;
pub mod discovery;
pub mod figures;
pub mod hook;
pub mod json;
pub mod limits;
pub mod model;
pub mod monitors;
pub mod panel;
pub mod parse;
pub mod pricing;
pub mod product;
pub mod render;
pub mod scanner;
pub mod settings;
pub mod settings_ui;
pub mod snapshot;
pub mod store;
pub mod text;
pub mod time;
pub mod tracker;
pub mod view;

pub use aggregate::{DayTotals, ModelTotals, SessionTotals, Totals};
pub use model::{TokenUsage, UsageEvent};
pub use pricing::PricingTable;
pub use scanner::{ScanReport, Scanner};
pub use snapshot::{LimitSnapshot, LimitWindow, WindowState};
pub use store::UsageStore;
