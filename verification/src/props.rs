//! Round-trip laws: a cell written as delimited text and read back with
//! the same separator and sentinel comes back as the same cell, for the
//! kinds and inputs on which the codec's own rules allow it. Excluded by
//! their nature: text holding the separator (the quoting asymmetry),
//! datetime cells (their two directions run through the pattern), 64-bit
//! float cells (inference always prefers the 32-bit float tag), and 64-bit
//! integers whose value also fits 32 bits (inference prefers the narrower
//! tag).

use vstd::prelude::*;

use crate::bytes::{
    lemma_join_free, lemma_split_join, lemma_split_prefix, spec_join, spec_split,
};
use crate::cell::{cell_to_obj, CellObjV, CellV};
use crate::export::exported_cells;
use crate::float::is_float_text;
use crate::infer::spec_infer;
use crate::num::{lemma_parse_fmt_i32, lemma_parse_fmt_i64, spec_parse_i32, spec_parse_i64};
use crate::reader::{
    conform_row, data_lines, lemma_read_cells_fitted_push, spec_header, spec_read_cells_fitted,
    spec_row_cells,
};
use crate::writer::{spec_format_obj, spec_format_row, spec_rows_text, spec_to_csv};

verus! {

/// The cells whose written text reads back as the same cell: the written
/// field must not collide with the missing-value sentinel, and the cell's
/// kind must be one whose tag inference reproduces.
pub open spec fn cell_round_trippable(c: CellV, sep: u8, sentinel: Seq<u8>, pattern: Seq<u8>) -> bool {
    &&& spec_format_obj(cell_to_obj(c), sep, pattern) != sentinel
    &&& match c {
        CellV::Int32(_) => true,
        CellV::Int64(v) => !(i32::MIN <= v <= i32::MAX),
        CellV::Float32(t) => is_float_text(t) && spec_parse_i32(t) is None && spec_parse_i64(t)
            is None && !t.contains(sep),
        CellV::Float64(_) => false,
        CellV::Text(t) => t.len() > 0 && spec_parse_i32(t) is None && spec_parse_i64(t) is None
            && !is_float_text(t) && !t.contains(sep),
        CellV::DateTime(_) => false,
        CellV::Missing => true,
    }
}

/// Writing one cell and classifying the written field with a matching
/// separator and sentinel, and no datetime pattern, yields the cell back.
pub proof fn lemma_cell_round_trip(c: CellV, sep: u8, sentinel: Seq<u8>, pattern: Seq<u8>)
    requires
        pattern.len() == 0,
        cell_round_trippable(c, sep, sentinel, pattern),
    ensures
        spec_infer(spec_format_obj(cell_to_obj(c), sep, pattern), sentinel, pattern) == c,
{
    let s = spec_format_obj(cell_to_obj(c), sep, pattern);
    match c {
        CellV::Int32(v) => {
            lemma_parse_fmt_i32(v);
            if s.len() == 0 {
                assert(crate::num::int_digits(s).len() == 0);
                assert(false);
            }
        },
        CellV::Int64(v) => {
            lemma_parse_fmt_i64(v);
            if s.len() == 0 {
                assert(crate::num::int_digits(s).len() == 0);
                assert(false);
            }
            assert(spec_parse_i32(s) is None);
        },
        CellV::Float32(t) => {
            assert(s == t);
            if t.len() == 0 {
                assert(crate::num::int_digits(t).len() == 0);
                assert(!is_float_text(t));
                assert(false);
            }
        },
        CellV::Text(t) => {
            assert(s == t);
        },
        CellV::Missing => {
            assert(s.len() == 0);
        },
        _ => {
        },
    }
}

/// Writing one row of cells as a joined line and reading the line back —
/// splitting on the separator and classifying each field — yields the same
/// cells, when no written field holds the separator (in particular the
/// separator is not a digit of a written number) and no written field
/// collides with the sentinel.
pub proof fn lemma_row_round_trip(cells: Seq<CellV>, sep: u8, sentinel: Seq<u8>, pattern: Seq<u8>)
    requires
        cells.len() > 0,
        pattern.len() == 0,
        forall|i: int| 0 <= i < cells.len() ==> cell_round_trippable(
            #[trigger] cells[i],
            sep,
            sentinel,
            pattern,
        ),
        forall|i: int| 0 <= i < cells.len() ==> !spec_format_obj(
            cell_to_obj(#[trigger] cells[i]),
            sep,
            pattern,
        ).contains(sep),
    ensures
        spec_row_cells(
            spec_format_row(exported_cells(cells), sep, pattern),
            sep,
            sentinel,
            pattern,
        ) == cells,
{
    let objs = exported_cells(cells);
    let fields = objs.map_values(|o: crate::cell::CellObjV| spec_format_obj(o, sep, pattern));
    let line = spec_join(fields, sep);
    assert(fields.len() == cells.len());
    assert forall|i: int| 0 <= i < fields.len() implies !(#[trigger] fields[i]).contains(sep) by {
        assert(objs[i] == cell_to_obj(cells[i]));
        assert(fields[i] == spec_format_obj(cell_to_obj(cells[i]), sep, pattern));
    }
    lemma_split_join(fields, sep);
    let got = spec_row_cells(line, sep, sentinel, pattern);
    assert(got == fields.map_values(|f: Seq<u8>| spec_infer(f, sentinel, pattern)));
    assert forall|i: int| 0 <= i < cells.len() implies got[i] == cells[i] by {
        assert(objs[i] == cell_to_obj(cells[i]));
        assert(fields[i] == spec_format_obj(cell_to_obj(cells[i]), sep, pattern));
        lemma_cell_round_trip(cells[i], sep, sentinel, pattern);
    }
    assert(got =~= cells);
}

/// The written line of row `r` of the exported grid.
pub open spec fn row_line(data: Seq<CellObjV>, ncols: int, r: int, sep: u8, pattern: Seq<u8>) -> Seq<
    u8,
> {
    spec_format_row(data.subrange(r * ncols, (r + 1) * ncols), sep, pattern)
}

/// The written lines of the first `n` rows of the exported grid.
pub open spec fn row_lines(
    data: Seq<CellObjV>,
    ncols: int,
    n: int,
    sep: u8,
    pattern: Seq<u8>,
) -> Seq<Seq<u8>> {
    Seq::new(n as nat, |r: int| row_line(data, ncols, r, sep, pattern))
}

/// Splitting the rows' written text (each row line-break-terminated),
/// followed by any suffix, on the line break yields the row lines and then
/// the split of the suffix.
proof fn lemma_rows_text_split(
    data: Seq<CellObjV>,
    ncols: int,
    n: int,
    sep: u8,
    pattern: Seq<u8>,
    suffix: Seq<u8>,
)
    requires
        n >= 0,
        forall|r: int| 0 <= r < n ==> !row_line(data, ncols, r, sep, pattern).contains(10u8),
    ensures
        spec_split(spec_rows_text(data, ncols, n, sep, pattern) + suffix, 10u8) == row_lines(
            data,
            ncols,
            n,
            sep,
            pattern,
        ) + spec_split(suffix, 10u8),
    decreases n,
{
    if n == 0 {
        assert(spec_rows_text(data, ncols, 0, sep, pattern) + suffix =~= suffix);
        assert(row_lines(data, ncols, 0, sep, pattern) + spec_split(suffix, 10u8) =~= spec_split(
            suffix,
            10u8,
        ));
    } else {
        let line = row_line(data, ncols, n - 1, sep, pattern);
        let suffix2 = line + seq![10u8] + suffix;
        lemma_rows_text_split(data, ncols, n - 1, sep, pattern, suffix2);
        lemma_split_prefix(line, suffix, 10u8);
        assert(spec_rows_text(data, ncols, n, sep, pattern) + suffix =~= spec_rows_text(
            data,
            ncols,
            n - 1,
            sep,
            pattern,
        ) + suffix2);
        assert(row_lines(data, ncols, n - 1, sep, pattern) + (seq![line] + spec_split(
            suffix,
            10u8,
        )) =~= row_lines(data, ncols, n, sep, pattern) + spec_split(suffix, 10u8));
    }
}

/// Reading back the written row lines yields the first `n` rows of the
/// grid.
proof fn lemma_rows_read_back(
    cells: Seq<CellV>,
    ncols: int,
    n: int,
    sep: u8,
    sentinel: Seq<u8>,
    pattern: Seq<u8>,
)
    requires
        ncols > 0,
        n >= 0,
        n * ncols <= cells.len(),
        pattern.len() == 0,
        forall|i: int| 0 <= i < cells.len() ==> cell_round_trippable(
            #[trigger] cells[i],
            sep,
            sentinel,
            pattern,
        ),
        forall|i: int| 0 <= i < cells.len() ==> !spec_format_obj(
            cell_to_obj(#[trigger] cells[i]),
            sep,
            pattern,
        ).contains(sep),
    ensures
        spec_read_cells_fitted(
            row_lines(exported_cells(cells), ncols, n, sep, pattern),
            sep,
            sentinel,
            pattern,
            ncols,
        ) == cells.take(n * ncols),
    decreases n,
{
    let objs = exported_cells(cells);
    if n == 0 {
        assert(row_lines(objs, ncols, 0, sep, pattern) =~= Seq::<Seq<u8>>::empty());
        assert(cells.take(0) =~= Seq::<CellV>::empty());
    } else {
        assert((n - 1) * ncols + ncols == n * ncols) by (nonlinear_arith);
        assert(0 <= (n - 1) * ncols) by (nonlinear_arith)
            requires
                n >= 1,
                ncols > 0,
        ;
        lemma_rows_read_back(cells, ncols, n - 1, sep, sentinel, pattern);
        let lo = (n - 1) * ncols;
        let hi = n * ncols;
        let sub = cells.subrange(lo, hi);
        let line = row_line(objs, ncols, n - 1, sep, pattern);
        assert(row_lines(objs, ncols, n, sep, pattern) =~= row_lines(
            objs,
            ncols,
            n - 1,
            sep,
            pattern,
        ).push(line));
        lemma_read_cells_fitted_push(
            row_lines(objs, ncols, n - 1, sep, pattern),
            line,
            sep,
            sentinel,
            pattern,
            ncols,
        );
        assert(objs.subrange(lo, hi) =~= exported_cells(sub));
        assert(line == spec_format_row(exported_cells(sub), sep, pattern));
        assert forall|i: int| 0 <= i < sub.len() implies cell_round_trippable(
            #[trigger] sub[i],
            sep,
            sentinel,
            pattern,
        ) by {
            assert(sub[i] == cells[lo + i]);
        }
        assert forall|i: int| 0 <= i < sub.len() implies !spec_format_obj(
            cell_to_obj(#[trigger] sub[i]),
            sep,
            pattern,
        ).contains(sep) by {
            assert(sub[i] == cells[lo + i]);
        }
        lemma_row_round_trip(sub, sep, sentinel, pattern);
        // A written row has exactly one field per column, so conforming it
        // to the width changes nothing.
        assert(spec_row_cells(line, sep, sentinel, pattern).len() == ncols);
        assert(conform_row(spec_row_cells(line, sep, sentinel, pattern), ncols) =~= spec_row_cells(
            line,
            sep,
            sentinel,
            pattern,
        ));
        assert(cells.take(lo) + sub =~= cells.take(hi));
    }
}

/// Writing a whole table — header line, then every row, each terminated
/// with a line break — and splitting the written text back into lines
/// yields exactly the header line, the row lines, and one empty trailing
/// piece after the final break; reading those lines back (header consumed,
/// trailing piece dropped, as a line-oriented source delivers them) yields
/// the same column names, the same row count, and the same cells. Holds
/// whenever the grid is rectangular, no written field or column name holds
/// the separator or a line break, no written field collides with the
/// sentinel, and no datetime pattern is in play.
pub proof fn lemma_table_round_trip(
    cells: Seq<CellV>,
    cols: Seq<Seq<u8>>,
    sep: u8,
    sentinel: Seq<u8>,
    pattern: Seq<u8>,
)
    requires
        pattern.len() == 0,
        sep != 10,
        cols.len() > 0,
        cells.len() % cols.len() == 0,
        forall|i: int| 0 <= i < cols.len() ==> !(#[trigger] cols[i]).contains(sep) && !cols[
            i
        ].contains(10u8),
        forall|i: int| 0 <= i < cells.len() ==> cell_round_trippable(
            #[trigger] cells[i],
            sep,
            sentinel,
            pattern,
        ),
        forall|i: int| 0 <= i < cells.len() ==> !spec_format_obj(
            cell_to_obj(#[trigger] cells[i]),
            sep,
            pattern,
        ).contains(sep) && !spec_format_obj(cell_to_obj(cells[i]), sep, pattern).contains(10u8),
    ensures
        ({
            let out = spec_to_csv(exported_cells(cells), cols, sep, true, pattern);
            let nrows = cells.len() as int / cols.len() as int;
            let pieces = spec_split(out, 10u8);
            &&& pieces == seq![spec_join(cols, sep)] + row_lines(
                exported_cells(cells),
                cols.len() as int,
                nrows,
                sep,
                pattern,
            ) + seq![Seq::<u8>::empty()]
            &&& spec_header(pieces.drop_last(), sep, true) == cols
            &&& data_lines(pieces.drop_last(), true).len() == nrows
            &&& spec_read_cells_fitted(
                data_lines(pieces.drop_last(), true),
                sep,
                sentinel,
                pattern,
                cols.len() as int,
            ) == cells
        }),
{
    let objs = exported_cells(cells);
    let ncols = cols.len() as int;
    let nrows = cells.len() as int / ncols;
    let out = spec_to_csv(objs, cols, sep, true, pattern);
    let hdr = spec_join(cols, sep);
    let rows_text = spec_rows_text(objs, ncols, nrows, sep, pattern);
    vstd::arithmetic::div_mod::lemma_fundamental_div_mod(cells.len() as int, ncols);
    assert(nrows * ncols == cells.len());
    assert(objs.len() == cells.len());
    assert(out =~= hdr + seq![10u8] + rows_text);
    lemma_join_free(cols, sep, 10u8);
    // Every row line is free of line breaks: its fields are, and so is the
    // separator they are joined with.
    assert forall|r: int| 0 <= r < nrows implies !row_line(objs, ncols, r, sep, pattern).contains(
        10u8,
    ) by {
        assert(0 <= r * ncols) by (nonlinear_arith)
            requires
                r >= 0,
                ncols > 0,
        ;
        assert(r * ncols + ncols == (r + 1) * ncols) by (nonlinear_arith);
        assert((r + 1) * ncols <= nrows * ncols) by (nonlinear_arith)
            requires
                r + 1 <= nrows,
                ncols > 0,
        ;
        let rowobjs = objs.subrange(r * ncols, (r + 1) * ncols);
        let fields = rowobjs.map_values(|o: CellObjV| spec_format_obj(o, sep, pattern));
        assert forall|k: int| 0 <= k < fields.len() implies !(#[trigger] fields[k]).contains(
            10u8,
        ) by {
            assert(rowobjs[k] == objs[r * ncols + k]);
            assert(objs[r * ncols + k] == cell_to_obj(cells[r * ncols + k]));
        }
        lemma_join_free(fields, sep, 10u8);
    }
    lemma_rows_text_split(objs, ncols, nrows, sep, pattern, Seq::empty());
    lemma_split_prefix(hdr, rows_text, 10u8);
    assert(rows_text + Seq::<u8>::empty() =~= rows_text);
    let rl = row_lines(objs, ncols, nrows, sep, pattern);
    assert(spec_split(Seq::<u8>::empty(), 10u8) =~= seq![Seq::<u8>::empty()]);
    let pieces = spec_split(out, 10u8);
    assert(pieces =~= seq![hdr] + rl + seq![Seq::<u8>::empty()]);
    let lines = pieces.drop_last();
    assert(lines =~= seq![hdr] + rl);
    assert(lines[0] == hdr);
    lemma_split_join(cols, sep);
    assert(spec_header(lines, sep, true) == cols);
    assert(data_lines(lines, true) =~= rl);
    lemma_rows_read_back(cells, ncols, nrows, sep, sentinel, pattern);
    assert(cells.take(nrows * ncols) =~= cells);
}

} // verus!
