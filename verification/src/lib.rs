//! logirecon: the business library of a logistics reconciliation tool.
//!
//! Sheets read from workbooks are modelled as [`table::Table`]s of plain
//! values; parsers normalise the forwarders' bills and our own shipment
//! details, the schema validator groups them by primary key, and the
//! reconciler compares two tables column by column.

pub mod text;
pub mod dates;
pub mod value;
pub mod table;
pub mod validate;
pub mod headers;
pub mod parser;
pub mod reconcile;
pub mod reader;
pub mod runner;
pub mod ui;
