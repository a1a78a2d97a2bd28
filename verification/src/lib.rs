//! A typed tabular-data codec: delimited text is read into a grid of typed
//! cells and written back out, with an explicit ownership story for callers
//! that receive the grid across an API boundary.
//!
//! The pipeline works on plain bytes: lines are split on a one-byte
//! separator, each field is classified into a cell (missing, datetime,
//! integer, float, or text, first match wins), and the grid is rendered
//! back field by field. Datetime parsing and formatting go through chrono
//! behind trusted wrappers; everything else is verified down to the bytes.

pub mod bytes;
pub mod cell;
pub mod export;
pub mod float;
pub mod foreign;
pub mod infer;
pub mod num;
pub mod props;
pub mod reader;
pub mod writer;
