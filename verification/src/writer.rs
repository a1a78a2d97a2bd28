//! The formatter and writer: renders an exported cell grid back to
//! delimited text. Integers render in their natural decimal form, float
//! cells render their literal text, text cells are double-quote-wrapped
//! only when they contain the separator, datetime cells go through the
//! supplied pattern with a fixed placeholder for out-of-range timestamps,
//! and missing cells render as an empty field.

use vstd::prelude::*;

use crate::bytes::{append_bytes, contains_byte, join_with, spec_join, views_of};
use crate::cell::{
    obj_views, CellObjV, CellObject, TYPE_DATETIME, TYPE_FLOAT32, TYPE_FLOAT64, TYPE_INT32,
    TYPE_INT64, TYPE_TEXT,
};
use crate::foreign::{dt_format_spec, format_datetime};
use crate::num::{fmt_i32, fmt_i64, spec_fmt_int};

verus! {

/// The writer's one fatal error: a zero column count, under which a row
/// count cannot be derived from a cell count.
#[derive(Debug)]
pub enum CsvError {
    ZeroColumns,
}

/// The placeholder rendered for a datetime outside the representable range.
pub open spec fn invalid_datetime_text() -> Seq<u8> {
    seq![
        91u8,
        73u8,
        110u8,
        118u8,
        97u8,
        108u8,
        105u8,
        100u8,
        32u8,
        68u8,
        97u8,
        116u8,
        101u8,
        84u8,
        105u8,
        109u8,
        101u8,
        93u8,
    ]
}

/// The text rendered for an entry whose tag is not a known one.
pub open spec fn unknown_text() -> Seq<u8> {
    seq![85u8, 110u8, 107u8, 110u8, 111u8, 119u8, 110u8]
}

/// The text one exported entry renders as.
pub open spec fn spec_format_obj(o: CellObjV, sep: u8, pattern: Seq<u8>) -> Seq<u8> {
    if o.type_id == TYPE_INT32 {
        spec_fmt_int(o.int_value as int)
    } else if o.type_id == TYPE_INT64 {
        spec_fmt_int(o.long_value as int)
    } else if o.type_id == TYPE_FLOAT32 || o.type_id == TYPE_FLOAT64 {
        match o.string_value {
            Some(t) => t,
            None => Seq::empty(),
        }
    } else if o.type_id == TYPE_TEXT {
        match o.string_value {
            Some(t) => if t.contains(sep) {
                seq![34u8] + t + seq![34u8]
            } else {
                t
            },
            None => Seq::empty(),
        }
    } else if o.type_id == TYPE_DATETIME {
        match dt_format_spec(o.datetime_value, pattern) {
            Some(t) => t,
            None => invalid_datetime_text(),
        }
    } else {
        unknown_text()
    }
}

/// Renders one exported entry, exactly as `spec_format_obj` describes: a
/// text payload holding the separator comes back double-quote-wrapped.
pub fn format_csv_value(cell: &CellObject, separator: u8, date_format: &Vec<u8>) -> (r: Vec<u8>)
    ensures
        r@ == spec_format_obj(cell@, separator, date_format@),
{
    if cell.type_id == TYPE_INT32 {
        fmt_i32(cell.int_value)
    } else if cell.type_id == TYPE_INT64 {
        fmt_i64(cell.long_value)
    } else if cell.type_id == TYPE_FLOAT32 || cell.type_id == TYPE_FLOAT64 {
        match &cell.string_value {
            Some(t) => crate::bytes::copy_bytes(t),
            None => Vec::new(),
        }
    } else if cell.type_id == TYPE_TEXT {
        match &cell.string_value {
            Some(t) => {
                if contains_byte(t, separator) {
                    let mut out: Vec<u8> = Vec::new();
                    out.push(34u8);
                    append_bytes(&mut out, t);
                    out.push(34u8);
                    proof {
                        assert(out@ =~= seq![34u8] + t@ + seq![34u8]);
                    }
                    out
                } else {
                    crate::bytes::copy_bytes(t)
                }
            },
            None => Vec::new(),
        }
    } else if cell.type_id == TYPE_DATETIME {
        match format_datetime(cell.datetime_value, date_format) {
            Some(t) => t,
            None => {
                let out: Vec<u8> = vec![
                    91u8,
                    73u8,
                    110u8,
                    118u8,
                    97u8,
                    108u8,
                    105u8,
                    100u8,
                    32u8,
                    68u8,
                    97u8,
                    116u8,
                    101u8,
                    84u8,
                    105u8,
                    109u8,
                    101u8,
                    93u8,
                ];
                proof {
                    assert(out@ =~= invalid_datetime_text());
                }
                out
            },
        }
    } else {
        let out: Vec<u8> = vec![85u8, 110u8, 107u8, 110u8, 111u8, 119u8, 110u8];
        proof {
            assert(out@ =~= unknown_text());
        }
        out
    }
}

/// The text one row of exported entries renders as, fields joined with the
/// separator.
pub open spec fn spec_format_row(cells: Seq<CellObjV>, sep: u8, pattern: Seq<u8>) -> Seq<u8> {
    spec_join(cells.map_values(|c: CellObjV| spec_format_obj(c, sep, pattern)), sep)
}

/// The text of the first `nrows` rows of the grid, each terminated with a
/// line break.
pub open spec fn spec_rows_text(
    data: Seq<CellObjV>,
    ncols: int,
    nrows: int,
    sep: u8,
    pattern: Seq<u8>,
) -> Seq<u8>
    decreases nrows,
{
    if nrows <= 0 {
        Seq::empty()
    } else {
        spec_rows_text(data, ncols, nrows - 1, sep, pattern) + spec_format_row(
            data.subrange((nrows - 1) * ncols, nrows * ncols),
            sep,
            pattern,
        ) + seq![10u8]
    }
}

/// The full output text: the optional header line, then every complete row
/// of the grid. The row count is the cell count divided by the column
/// count, trailing partial cells ignored.
pub open spec fn spec_to_csv(
    data: Seq<CellObjV>,
    cols: Seq<Seq<u8>>,
    sep: u8,
    has_header: bool,
    pattern: Seq<u8>,
) -> Seq<u8> {
    let header = if has_header {
        spec_join(cols, sep) + seq![10u8]
    } else {
        Seq::empty()
    };
    header + spec_rows_text(data, cols.len() as int, data.len() as int / cols.len() as int, sep, pattern)
}

/// Renders the exported grid as delimited text: an error exactly when the
/// column count is zero, else the text `spec_to_csv` describes, ready for
/// a sink. Allocates only transient per-cell strings.
pub fn to_csv(
    data: &Vec<CellObject>,
    columns: &Vec<Vec<u8>>,
    separator: u8,
    has_header: bool,
    date_format: &Vec<u8>,
) -> (r: Result<Vec<u8>, CsvError>)
    ensures
        r is Err <==> columns@.len() == 0,
        r matches Ok(out) ==> out@ == spec_to_csv(
            obj_views(data@),
            views_of(columns@),
            separator,
            has_header,
            date_format@,
        ),
{
    if columns.len() == 0 {
        return Err(CsvError::ZeroColumns);
    }
    let ncols = columns.len();
    let mut out: Vec<u8> = Vec::new();
    if has_header {
        let hdr = join_with(columns, separator);
        append_bytes(&mut out, &hdr);
        out.push(10u8);
    }
    let header_ghost = Ghost(out@);
    let dlen = data.len();
    let row_count = dlen / ncols;
    let objs = Ghost(obj_views(data@));
    proof {
        assert(out@ =~= header_ghost@ + spec_rows_text(
            objs@,
            ncols as int,
            0,
            separator,
            date_format@,
        ));
        vstd::arithmetic::div_mod::lemma_fundamental_div_mod(data@.len() as int, ncols as int);
    }
    let mut row: usize = 0;
    while row < row_count
        invariant
            0 <= row <= row_count,
            ncols == columns@.len(),
            ncols > 0,
            dlen == data@.len(),
            row_count == data@.len() as int / ncols as int,
            row_count * ncols <= data@.len(),
            objs@ == obj_views(data@),
            objs@.len() == data@.len(),
            out@ == header_ghost@ + spec_rows_text(
                objs@,
                ncols as int,
                row as int,
                separator,
                date_format@,
            ),
        decreases row_count - row,
    {
        proof {
            assert((row + 1) * ncols <= row_count * ncols) by (nonlinear_arith)
                requires
                    row + 1 <= row_count,
                    ncols > 0,
            ;
            assert(row * ncols < (row + 1) * ncols) by (nonlinear_arith)
                requires
                    ncols > 0,
            ;
            assert((row + 1) * ncols == row * ncols + ncols) by (nonlinear_arith);
        }
        let base = row * ncols;
        let mut fields: Vec<Vec<u8>> = Vec::new();
        let mut col: usize = 0;
        proof {
            let rowcells = objs@.subrange(base as int, base + ncols);
            assert(views_of(fields@) =~= rowcells.map_values(
                |c: CellObjV| spec_format_obj(c, separator, date_format@),
            ).take(0));
        }
        while col < ncols
            invariant
                0 <= col <= ncols,
                ncols > 0,
                base == row * ncols,
                dlen == data@.len(),
                base + ncols <= dlen,
                objs@ == obj_views(data@),
                objs@.len() == data@.len(),
                views_of(fields@) == objs@.subrange(base as int, base + ncols).map_values(
                    |c: CellObjV| spec_format_obj(c, separator, date_format@),
                ).take(col as int),
            decreases ncols - col,
        {
            let f = format_csv_value(&data[base + col], separator, date_format);
            proof {
                let rowcells = objs@.subrange(base as int, base + ncols);
                let mapped = rowcells.map_values(
                    |c: CellObjV| spec_format_obj(c, separator, date_format@),
                );
                assert(rowcells[col as int] == objs@[base + col]);
                assert(objs@[base + col] == data@[base + col]@);
                assert(views_of(fields@.push(f)) =~= views_of(fields@).push(f@));
                assert(mapped.take(col + 1) =~= mapped.take(col as int).push(mapped[col as int]));
            }
            fields.push(f);
            col = col + 1;
        }
        let line = join_with(&fields, separator);
        append_bytes(&mut out, &line);
        out.push(10u8);
        proof {
            let rowcells = objs@.subrange(base as int, base + ncols);
            let mapped = rowcells.map_values(
                |c: CellObjV| spec_format_obj(c, separator, date_format@),
            );
            assert(views_of(fields@) =~= mapped);
            assert(line@ == spec_format_row(rowcells, separator, date_format@));
            assert(rowcells =~= objs@.subrange(
                (row as int) * (ncols as int),
                (row as int + 1) * (ncols as int),
            ));
            assert(out@ =~= header_ghost@ + spec_rows_text(
                objs@,
                ncols as int,
                row + 1,
                separator,
                date_format@,
            ));
        }
        row = row + 1;
    }
    proof {
        assert(row_count == objs@.len() as int / ncols as int);
    }
    Ok(out)
}

} // verus!
