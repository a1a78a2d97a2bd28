//! The typed cell model: a closed sum type for the pipeline, a flat tagged
//! form for export across the API boundary, and the table that holds an
//! ordered column-name sequence with a flattened cell grid.
//!
//! Floating-point payloads are carried as their literal text: the pipeline
//! classifies them by the float grammar and never computes with them.

use vstd::prelude::*;

verus! {

/// Tag for a 32-bit integer cell.
pub const TYPE_INT32: i32 = 0;

/// Tag for a 64-bit integer cell.
pub const TYPE_INT64: i32 = 1;

/// Tag for a 32-bit float cell.
pub const TYPE_FLOAT32: i32 = 2;

/// Tag for a 64-bit float cell.
pub const TYPE_FLOAT64: i32 = 3;

/// Tag for a text cell; with no payload it marks a missing value.
pub const TYPE_TEXT: i32 = 4;

/// Tag for an epoch-millisecond datetime cell.
pub const TYPE_DATETIME: i32 = 5;

/// One typed table entry.
pub enum Cell {
    /// A 32-bit signed integer.
    Int32(i32),
    /// A 64-bit signed integer.
    Int64(i64),
    /// A 32-bit float, carried as its literal text.
    Float32(Vec<u8>),
    /// A 64-bit float, carried as its literal text.
    Float64(Vec<u8>),
    /// Owned text, stored verbatim.
    Text(Vec<u8>),
    /// Milliseconds since the Unix epoch, normalized to UTC.
    DateTime(i64),
    /// An absent value.
    Missing,
}

/// The mathematical value of a `Cell`.
pub enum CellV {
    Int32(i32),
    Int64(i64),
    Float32(Seq<u8>),
    Float64(Seq<u8>),
    Text(Seq<u8>),
    DateTime(i64),
    Missing,
}

impl View for Cell {
    type V = CellV;

    open spec fn view(&self) -> CellV {
        match self {
            Cell::Int32(v) => CellV::Int32(*v),
            Cell::Int64(v) => CellV::Int64(*v),
            Cell::Float32(t) => CellV::Float32(t@),
            Cell::Float64(t) => CellV::Float64(t@),
            Cell::Text(t) => CellV::Text(t@),
            Cell::DateTime(ms) => CellV::DateTime(*ms),
            Cell::Missing => CellV::Missing,
        }
    }
}

/// The views of a sequence of cells.
pub open spec fn cell_views(s: Seq<Cell>) -> Seq<CellV> {
    s.map_values(|c: Cell| c@)
}

/// One exported table entry: the flat, explicitly tagged form handed across
/// the API boundary. `string_value` carries text payloads and float literal
/// text; a text tag with no payload marks a missing value, mirroring the
/// null convention of the boundary.
pub struct CellObject {
    /// Which payload field is meaningful.
    pub type_id: i32,
    /// Payload of a `TYPE_INT32` cell.
    pub int_value: i32,
    /// Payload of a `TYPE_INT64` cell.
    pub long_value: i64,
    /// Payload of a `TYPE_DATETIME` cell, in epoch milliseconds.
    pub datetime_value: i64,
    /// Payload of text and float cells; absent for a missing value.
    pub string_value: Option<Vec<u8>>,
}

/// The mathematical value of a `CellObject`.
pub struct CellObjV {
    pub type_id: i32,
    pub int_value: i32,
    pub long_value: i64,
    pub datetime_value: i64,
    pub string_value: Option<Seq<u8>>,
}

impl View for CellObject {
    type V = CellObjV;

    open spec fn view(&self) -> CellObjV {
        CellObjV {
            type_id: self.type_id,
            int_value: self.int_value,
            long_value: self.long_value,
            datetime_value: self.datetime_value,
            string_value: match self.string_value {
                Some(ref t) => Some(t@),
                None => None,
            },
        }
    }
}

/// The views of a sequence of exported entries.
pub open spec fn obj_views(s: Seq<CellObject>) -> Seq<CellObjV> {
    s.map_values(|o: CellObject| o@)
}

/// The flat exported form of a cell value: unused payload fields are zero,
/// a missing value is a text tag without payload.
pub open spec fn cell_to_obj(c: CellV) -> CellObjV {
    match c {
        CellV::Int32(v) => CellObjV {
            type_id: TYPE_INT32,
            int_value: v,
            long_value: 0,
            datetime_value: 0,
            string_value: None,
        },
        CellV::Int64(v) => CellObjV {
            type_id: TYPE_INT64,
            int_value: 0,
            long_value: v,
            datetime_value: 0,
            string_value: None,
        },
        CellV::Float32(t) => CellObjV {
            type_id: TYPE_FLOAT32,
            int_value: 0,
            long_value: 0,
            datetime_value: 0,
            string_value: Some(t),
        },
        CellV::Float64(t) => CellObjV {
            type_id: TYPE_FLOAT64,
            int_value: 0,
            long_value: 0,
            datetime_value: 0,
            string_value: Some(t),
        },
        CellV::Text(t) => CellObjV {
            type_id: TYPE_TEXT,
            int_value: 0,
            long_value: 0,
            datetime_value: 0,
            string_value: Some(t),
        },
        CellV::DateTime(ms) => CellObjV {
            type_id: TYPE_DATETIME,
            int_value: 0,
            long_value: 0,
            datetime_value: ms,
            string_value: None,
        },
        CellV::Missing => CellObjV {
            type_id: TYPE_TEXT,
            int_value: 0,
            long_value: 0,
            datetime_value: 0,
            string_value: None,
        },
    }
}

/// Flattens one cell into its exported form, deep-copying any text payload
/// so the exported entry owns its storage independently.
pub fn export_cell(c: &Cell) -> (o: CellObject)
    ensures
        o@ == cell_to_obj(c@),
{
    match c {
        Cell::Int32(v) => CellObject {
            type_id: TYPE_INT32,
            int_value: *v,
            long_value: 0,
            datetime_value: 0,
            string_value: None,
        },
        Cell::Int64(v) => CellObject {
            type_id: TYPE_INT64,
            int_value: 0,
            long_value: *v,
            datetime_value: 0,
            string_value: None,
        },
        Cell::Float32(t) => CellObject {
            type_id: TYPE_FLOAT32,
            int_value: 0,
            long_value: 0,
            datetime_value: 0,
            string_value: Some(crate::bytes::copy_bytes(t)),
        },
        Cell::Float64(t) => CellObject {
            type_id: TYPE_FLOAT64,
            int_value: 0,
            long_value: 0,
            datetime_value: 0,
            string_value: Some(crate::bytes::copy_bytes(t)),
        },
        Cell::Text(t) => CellObject {
            type_id: TYPE_TEXT,
            int_value: 0,
            long_value: 0,
            datetime_value: 0,
            string_value: Some(crate::bytes::copy_bytes(t)),
        },
        Cell::DateTime(ms) => CellObject {
            type_id: TYPE_DATETIME,
            int_value: 0,
            long_value: 0,
            datetime_value: *ms,
            string_value: None,
        },
        Cell::Missing => CellObject {
            type_id: TYPE_TEXT,
            int_value: 0,
            long_value: 0,
            datetime_value: 0,
            string_value: None,
        },
    }
}

/// Ordered column names plus a flattened, row-major grid of cells. A
/// table read under a header is always well formed: the header declares
/// the width and every row is conformed to it. A headerless read declares
/// no columns and keeps the grid as read.
pub struct Table {
    /// Column names, order significant, not required to be unique.
    pub columns: Vec<Vec<u8>>,
    /// The cells, row by row.
    pub cells: Vec<Cell>,
    /// The declared row count.
    pub rows: usize,
}

impl Table {
    /// A table is well formed when its grid is exactly rows-by-columns;
    /// a table with zero columns has zero cells.
    pub open spec fn well_formed(&self) -> bool {
        self.cells@.len() == self.rows * self.columns@.len()
    }
}

} // verus!
