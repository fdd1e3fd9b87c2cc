//! Normalisation of decoded trade ("deal") records into delimiter-separated
//! text rows: exact two-digit decimal prices, calendar timestamps counted from
//! 1 January of year 1, side labels, and an order-preserving export of a whole
//! stream behind a fixed header line.
pub mod calendar;
pub mod deal;
pub mod error;
pub mod export;
pub mod price;
pub mod text;

pub use calendar::{CeTime, UtcTime};
pub use deal::{Deal, DealRow, Operation, Side, Stream};
pub use error::ExportError;
pub use export::{check_stream, csv_header, deal_line, export_deals};
pub use price::price_text;
