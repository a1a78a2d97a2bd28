//! The ownership and lifecycle manager: wraps a table for a caller across
//! the API boundary. Acquisition deep-copies every text payload into
//! exported handles that own their storage independently of the table; the
//! matching release operations consume the handles, reclaiming every
//! payload and the backing arrays exactly once. A released or absent
//! handle is represented by `None`, so releasing is null-safe and a second
//! release of the same slot is a no-op rather than a double free.

use vstd::prelude::*;

use crate::bytes::{copy_bytes, views_of};
use crate::cell::{cell_to_obj, cell_views, export_cell, obj_views, CellObject, CellV, Table};
use crate::reader::{
    data_lines, read_table, spec_header, spec_read_cells, spec_read_cells_fitted,
};

verus! {

/// The exported column-name array: owns one independent string per column.
pub struct ColumnsHandle {
    /// The column names, order preserved.
    pub names: Vec<Vec<u8>>,
}

/// The exported cell array: owns the text payload of every text cell.
pub struct DataHandle {
    /// The flattened cells, row by row.
    pub cells: Vec<CellObject>,
}

/// The flat exported form of a sequence of cells.
pub open spec fn exported_cells(cells: Seq<CellV>) -> Seq<crate::cell::CellObjV> {
    cells.map_values(|c: CellV| cell_to_obj(c))
}

/// Wraps a table for export: deep-copies the column names and flattens
/// every cell, deep-copying text payloads, so that the exported handles
/// and the table share no storage. Returns the handles with their counts.
pub fn acquire_table_for_export(table: &Table) -> (r: (ColumnsHandle, usize, DataHandle, usize))
    ensures
        views_of(r.0.names@) == views_of(table.columns@),
        r.1 == table.columns@.len(),
        obj_views(r.2.cells@) == exported_cells(cell_views(table.cells@)),
        r.3 == table.rows,
{
    let mut names: Vec<Vec<u8>> = Vec::new();
    let mut i: usize = 0;
    proof {
        assert(views_of(names@) =~= views_of(table.columns@).take(0));
    }
    while i < table.columns.len()
        invariant
            0 <= i <= table.columns@.len(),
            views_of(names@) == views_of(table.columns@).take(i as int),
        decreases table.columns@.len() - i,
    {
        let n = copy_bytes(&table.columns[i]);
        proof {
            assert(views_of(names@.push(n)) =~= views_of(names@).push(n@));
            assert(views_of(table.columns@).take(i + 1) =~= views_of(table.columns@).take(
                i as int,
            ).push(views_of(table.columns@)[i as int]));
            assert(views_of(table.columns@)[i as int] == table.columns@[i as int]@);
        }
        names.push(n);
        i = i + 1;
    }
    proof {
        assert(views_of(table.columns@).take(table.columns@.len() as int) =~= views_of(
            table.columns@,
        ));
    }
    let mut cells: Vec<CellObject> = Vec::new();
    let mut j: usize = 0;
    proof {
        assert(obj_views(cells@) =~= exported_cells(cell_views(table.cells@)).take(0));
    }
    while j < table.cells.len()
        invariant
            0 <= j <= table.cells@.len(),
            obj_views(cells@) == exported_cells(cell_views(table.cells@)).take(j as int),
        decreases table.cells@.len() - j,
    {
        let o = export_cell(&table.cells[j]);
        proof {
            let ex = exported_cells(cell_views(table.cells@));
            assert(obj_views(cells@.push(o)) =~= obj_views(cells@).push(o@));
            assert(ex.take(j + 1) =~= ex.take(j as int).push(ex[j as int]));
            assert(cell_views(table.cells@)[j as int] == table.cells@[j as int]@);
            assert(ex[j as int] == cell_to_obj(table.cells@[j as int]@));
        }
        cells.push(o);
        j = j + 1;
    }
    proof {
        let ex = exported_cells(cell_views(table.cells@));
        assert(ex.take(table.cells@.len() as int) =~= ex);
    }
    let col_count = table.columns.len();
    let row_count = table.rows;
    (ColumnsHandle { names }, col_count, DataHandle { cells }, row_count)
}

/// Releases an exported column array: reclaims each name's storage and the
/// array itself, leaving the slot empty. A no-op on an empty slot, so a
/// null handle never crashes and a second release never frees twice. The
/// count is the one handed out at acquisition; the handle owns its own
/// length, so the release reclaims everything it owns whatever count the
/// caller passes.
pub fn free_columns(columns: &mut Option<ColumnsHandle>, col_count: usize)
    ensures
        *final(columns) is None,
{
    *columns = None;
}

/// Releases an exported cell array: reclaims every text payload and the
/// array itself, leaving the slot empty. A no-op on an empty slot, so a
/// null handle never crashes and a second release never frees twice. The
/// counts are the ones handed out at acquisition; the handle owns its own
/// length, so the release reclaims everything it owns whatever counts the
/// caller passes.
pub fn free_data(data: &mut Option<DataHandle>, row_count: usize, col_count: usize)
    ensures
        *final(data) is None,
{
    *data = None;
}

/// Reads decoded source lines into exported handles: the reader's table,
/// wrapped for the boundary by `acquire_table_for_export`. Returns the
/// column handle with its count and the cell handle with the row count.
/// With a header the exported grid is exactly rows-by-columns (rows
/// conformed to the header width), so the returned counts always satisfy
/// the grid invariant.
pub fn from_csv(
    lines: &Vec<Vec<u8>>,
    separator: u8,
    date_format: &Vec<u8>,
    missing_value: &Vec<u8>,
    has_header: bool,
) -> (r: (ColumnsHandle, usize, DataHandle, usize))
    ensures
        views_of(r.0.names@) == spec_header(views_of(lines@), separator, has_header),
        r.1 == spec_header(views_of(lines@), separator, has_header).len(),
        r.3 == data_lines(views_of(lines@), has_header).len(),
        has_header ==> obj_views(r.2.cells@) == exported_cells(
            spec_read_cells_fitted(
                data_lines(views_of(lines@), has_header),
                separator,
                missing_value@,
                date_format@,
                spec_header(views_of(lines@), separator, has_header).len() as int,
            ),
        ),
        has_header ==> r.2.cells@.len() == r.3 * r.1,
        !has_header ==> obj_views(r.2.cells@) == exported_cells(
            spec_read_cells(
                data_lines(views_of(lines@), has_header),
                separator,
                missing_value@,
                date_format@,
            ),
        ),
{
    let table = read_table(lines, separator, date_format, missing_value, has_header);
    let r = acquire_table_for_export(&table);
    proof {
        if has_header {
            assert(r.2.cells@.len() == obj_views(r.2.cells@).len());
            assert(exported_cells(cell_views(table.cells@)).len() == cell_views(
                table.cells@,
            ).len());
            assert(table.cells@.len() == table.rows * table.columns@.len());
        }
    }
    r
}

} // verus!
