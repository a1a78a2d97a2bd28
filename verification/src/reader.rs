//! The reader: turns decoded source lines into a table. The first line
//! becomes the column names when a header is requested; every other line is
//! split on the separator (no quoting or escaping on input) and each field
//! is classified by the type inferencer independently. A header declares
//! the table's width and every data row is conformed to it — short rows
//! padded with missing cells, long rows truncated — so the grid invariant
//! `cells == rows × columns` always holds for a table with declared
//! columns; a headerless read keeps every cell as read.

use vstd::prelude::*;

use crate::bytes::{spec_split, split_on, views_of};
use crate::cell::{cell_views, Cell, CellV, Table};
use crate::infer::{infer_cell, spec_infer};

verus! {

/// The column names: the first line split on the separator when a header
/// is requested, and no names otherwise.
pub open spec fn spec_header(lines: Seq<Seq<u8>>, sep: u8, has_header: bool) -> Seq<Seq<u8>> {
    if has_header && lines.len() > 0 {
        spec_split(lines[0], sep)
    } else {
        Seq::empty()
    }
}

/// The lines that carry cell data: all of them, minus a consumed header.
pub open spec fn data_lines(lines: Seq<Seq<u8>>, has_header: bool) -> Seq<Seq<u8>> {
    if has_header && lines.len() > 0 {
        lines.skip(1)
    } else {
        lines
    }
}

/// The cells of one data line: each split field classified independently.
pub open spec fn spec_row_cells(line: Seq<u8>, sep: u8, sentinel: Seq<u8>, pattern: Seq<u8>) -> Seq<
    CellV,
> {
    spec_split(line, sep).map_values(|f: Seq<u8>| spec_infer(f, sentinel, pattern))
}

/// The flattened cells of a sequence of data lines, row by row.
pub open spec fn spec_read_cells(
    dl: Seq<Seq<u8>>,
    sep: u8,
    sentinel: Seq<u8>,
    pattern: Seq<u8>,
) -> Seq<CellV>
    decreases dl.len(),
{
    if dl.len() == 0 {
        Seq::empty()
    } else {
        spec_row_cells(dl[0], sep, sentinel, pattern) + spec_read_cells(
            dl.skip(1),
            sep,
            sentinel,
            pattern,
        )
    }
}

/// How the flattened cells grow when one more line is appended.
pub proof fn lemma_read_cells_push(
    dl: Seq<Seq<u8>>,
    x: Seq<u8>,
    sep: u8,
    sentinel: Seq<u8>,
    pattern: Seq<u8>,
)
    ensures
        spec_read_cells(dl.push(x), sep, sentinel, pattern) == spec_read_cells(
            dl,
            sep,
            sentinel,
            pattern,
        ) + spec_row_cells(x, sep, sentinel, pattern),
    decreases dl.len(),
{
    if dl.len() == 0 {
        assert(dl.push(x)[0] == x);
        assert(dl.push(x).skip(1) =~= dl);
        assert(spec_read_cells(dl.push(x), sep, sentinel, pattern) == spec_row_cells(
            x,
            sep,
            sentinel,
            pattern,
        ) + spec_read_cells(dl, sep, sentinel, pattern));
        assert(spec_read_cells(dl, sep, sentinel, pattern) =~= Seq::<CellV>::empty());
        assert(spec_row_cells(x, sep, sentinel, pattern) + spec_read_cells(
            dl,
            sep,
            sentinel,
            pattern,
        ) =~= spec_read_cells(dl, sep, sentinel, pattern) + spec_row_cells(
            x,
            sep,
            sentinel,
            pattern,
        ));
    } else {
        lemma_read_cells_push(dl.skip(1), x, sep, sentinel, pattern);
        assert(dl.push(x)[0] == dl[0]);
        assert(dl.push(x).skip(1) =~= dl.skip(1).push(x));
        assert(spec_row_cells(dl[0], sep, sentinel, pattern) + (spec_read_cells(
            dl.skip(1),
            sep,
            sentinel,
            pattern,
        ) + spec_row_cells(x, sep, sentinel, pattern)) =~= (spec_row_cells(
            dl[0],
            sep,
            sentinel,
            pattern,
        ) + spec_read_cells(dl.skip(1), sep, sentinel, pattern)) + spec_row_cells(
            x,
            sep,
            sentinel,
            pattern,
        ));
    }
}

/// A row conformed to the declared width `w`: truncated when it is long,
/// padded with missing cells when it is short, so it holds exactly `w`
/// cells.
pub open spec fn conform_row(row: Seq<CellV>, w: int) -> Seq<CellV> {
    if row.len() >= w {
        row.take(w)
    } else {
        row + Seq::new((w - row.len()) as nat, |i: int| CellV::Missing)
    }
}

/// The flattened cells of a sequence of data lines under a declared
/// width: every row conformed to exactly `w` cells.
pub open spec fn spec_read_cells_fitted(
    dl: Seq<Seq<u8>>,
    sep: u8,
    sentinel: Seq<u8>,
    pattern: Seq<u8>,
    w: int,
) -> Seq<CellV>
    decreases dl.len(),
{
    if dl.len() == 0 {
        Seq::empty()
    } else {
        conform_row(spec_row_cells(dl[0], sep, sentinel, pattern), w) + spec_read_cells_fitted(
            dl.skip(1),
            sep,
            sentinel,
            pattern,
            w,
        )
    }
}

/// How the fitted cells grow when one more line is appended.
pub proof fn lemma_read_cells_fitted_push(
    dl: Seq<Seq<u8>>,
    x: Seq<u8>,
    sep: u8,
    sentinel: Seq<u8>,
    pattern: Seq<u8>,
    w: int,
)
    ensures
        spec_read_cells_fitted(dl.push(x), sep, sentinel, pattern, w) == spec_read_cells_fitted(
            dl,
            sep,
            sentinel,
            pattern,
            w,
        ) + conform_row(spec_row_cells(x, sep, sentinel, pattern), w),
    decreases dl.len(),
{
    let row = conform_row(spec_row_cells(x, sep, sentinel, pattern), w);
    if dl.len() == 0 {
        assert(dl.push(x)[0] == x);
        assert(dl.push(x).skip(1) =~= dl);
        assert(spec_read_cells_fitted(dl, sep, sentinel, pattern, w) =~= Seq::<CellV>::empty());
        assert(row + spec_read_cells_fitted(dl, sep, sentinel, pattern, w) =~= spec_read_cells_fitted(
            dl,
            sep,
            sentinel,
            pattern,
            w,
        ) + row);
    } else {
        lemma_read_cells_fitted_push(dl.skip(1), x, sep, sentinel, pattern, w);
        assert(dl.push(x)[0] == dl[0]);
        assert(dl.push(x).skip(1) =~= dl.skip(1).push(x));
        let head = conform_row(spec_row_cells(dl[0], sep, sentinel, pattern), w);
        assert(head + (spec_read_cells_fitted(dl.skip(1), sep, sentinel, pattern, w) + row) =~= (
        head + spec_read_cells_fitted(dl.skip(1), sep, sentinel, pattern, w)) + row);
    }
}

/// A fitted grid holds exactly width-many cells per line.
pub proof fn lemma_fitted_len(dl: Seq<Seq<u8>>, sep: u8, sentinel: Seq<u8>, pattern: Seq<u8>, w: int)
    requires
        w >= 0,
    ensures
        spec_read_cells_fitted(dl, sep, sentinel, pattern, w).len() == dl.len() * w,
    decreases dl.len(),
{
    if dl.len() == 0 {
    } else {
        lemma_fitted_len(dl.skip(1), sep, sentinel, pattern, w);
        let row = spec_row_cells(dl[0], sep, sentinel, pattern);
        assert(conform_row(row, w).len() == w);
        assert(w + (dl.len() - 1) * w == dl.len() * w) by (nonlinear_arith);
    }
}

/// Reads decoded lines into a table: header names verbatim, every field of
/// every data line classified by the inferencer, the row count the number
/// of data lines.
///
/// A header declares the table's width, and every data row is conformed to
/// it — short rows are padded with missing cells, long rows truncated — so
/// the grid is exactly rows-by-columns, as the data model demands of a
/// table with declared columns. A headerless read declares no columns and
/// keeps the grid as the plain concatenation of the rows as read.
pub fn read_table(
    lines: &Vec<Vec<u8>>,
    separator: u8,
    date_format: &Vec<u8>,
    missing_value: &Vec<u8>,
    has_header: bool,
) -> (t: Table)
    ensures
        views_of(t.columns@) == spec_header(views_of(lines@), separator, has_header),
        t.rows == data_lines(views_of(lines@), has_header).len(),
        has_header ==> cell_views(t.cells@) == spec_read_cells_fitted(
            data_lines(views_of(lines@), has_header),
            separator,
            missing_value@,
            date_format@,
            spec_header(views_of(lines@), separator, has_header).len() as int,
        ),
        has_header ==> t.well_formed(),
        !has_header ==> cell_views(t.cells@) == spec_read_cells(
            data_lines(views_of(lines@), has_header),
            separator,
            missing_value@,
            date_format@,
        ),
{
    let mut columns: Vec<Vec<u8>> = Vec::new();
    let mut start: usize = 0;
    if has_header && lines.len() > 0 {
        columns = split_on(&lines[0], separator);
        start = 1;
        proof {
            assert(views_of(lines@)[0] == lines@[0]@);
        }
    } else {
        proof {
            assert(views_of(columns@) =~= Seq::<Seq<u8>>::empty());
        }
    }
    let width = columns.len();
    let dl = Ghost(data_lines(views_of(lines@), has_header));
    proof {
        assert(dl@ =~= views_of(lines@).skip(start as int));
    }
    let mut cells: Vec<Cell> = Vec::new();
    let mut li: usize = start;
    proof {
        assert(dl@.take(0) =~= Seq::<Seq<u8>>::empty());
        assert(cell_views(cells@) =~= Seq::<CellV>::empty());
    }
    while li < lines.len()
        invariant
            start <= li <= lines@.len(),
            width == columns@.len(),
            dl@ == views_of(lines@).skip(start as int),
            has_header ==> cell_views(cells@) == spec_read_cells_fitted(
                dl@.take(li - start),
                separator,
                missing_value@,
                date_format@,
                width as int,
            ),
            !has_header ==> cell_views(cells@) == spec_read_cells(
                dl@.take(li - start),
                separator,
                missing_value@,
                date_format@,
            ),
        decreases lines@.len() - li,
    {
        let fields = split_on(&lines[li], separator);
        let row_base = Ghost(cell_views(cells@));
        let row_spec = Ghost(
            spec_row_cells(lines@[li as int]@, separator, missing_value@, date_format@),
        );
        proof {
            assert(views_of(lines@)[li as int] == lines@[li as int]@);
            assert(row_spec@ == views_of(fields@).map_values(
                |f: Seq<u8>| spec_infer(f, missing_value@, date_format@),
            ));
            assert(row_base@ + row_spec@.take(0) =~= row_base@);
        }
        // A declared width caps the row; without one the whole row counts.
        let limit: usize = if has_header {
            if fields.len() < width {
                fields.len()
            } else {
                width
            }
        } else {
            fields.len()
        };
        let mut fi: usize = 0;
        while fi < limit
            invariant
                0 <= fi <= limit,
                limit <= fields@.len(),
                row_spec@ == views_of(fields@).map_values(
                    |f: Seq<u8>| spec_infer(f, missing_value@, date_format@),
                ),
                cell_views(cells@) == row_base@ + row_spec@.take(fi as int),
            decreases limit - fi,
        {
            let c = infer_cell(&fields[fi], missing_value, date_format);
            proof {
                assert(views_of(fields@)[fi as int] == fields@[fi as int]@);
                assert(row_spec@[fi as int] == spec_infer(
                    fields@[fi as int]@,
                    missing_value@,
                    date_format@,
                ));
                assert(cell_views(cells@.push(c)) =~= cell_views(cells@).push(c@));
                assert(row_base@ + row_spec@.take(fi + 1) =~= (row_base@ + row_spec@.take(
                    fi as int,
                )).push(row_spec@[fi as int]));
            }
            cells.push(c);
            fi = fi + 1;
        }
        // A short row under a declared width is padded with missing cells.
        let mut k: usize = limit;
        if has_header {
            proof {
                assert(Seq::new(0nat, |i: int| CellV::Missing) =~= Seq::<CellV>::empty());
                assert(row_base@ + row_spec@.take(limit as int) + Seq::new(
                    0nat,
                    |i: int| CellV::Missing,
                ) =~= row_base@ + row_spec@.take(limit as int));
            }
            while k < width
                invariant
                    limit <= k <= width,
                    cell_views(cells@) == row_base@ + row_spec@.take(limit as int) + Seq::new(
                        (k - limit) as nat,
                        |i: int| CellV::Missing,
                    ),
                decreases width - k,
            {
                proof {
                    assert(cell_views(cells@.push(Cell::Missing)) =~= cell_views(cells@).push(
                        CellV::Missing,
                    ));
                    assert(row_base@ + row_spec@.take(limit as int) + Seq::new(
                        (k + 1 - limit) as nat,
                        |i: int| CellV::Missing,
                    ) =~= (row_base@ + row_spec@.take(limit as int) + Seq::new(
                        (k - limit) as nat,
                        |i: int| CellV::Missing,
                    )).push(CellV::Missing));
                }
                cells.push(Cell::Missing);
                k = k + 1;
            }
        } else {
            proof {
                assert(Seq::new(0nat, |i: int| CellV::Missing) =~= Seq::<CellV>::empty());
                assert(row_base@ + row_spec@.take(limit as int) + Seq::new(
                    0nat,
                    |i: int| CellV::Missing,
                ) =~= row_base@ + row_spec@.take(limit as int));
            }
        }
        proof {
            assert(row_spec@.len() == fields@.len());
            if has_header {
                if row_spec@.len() >= width {
                    assert(limit == width);
                    assert(Seq::new(0nat, |i: int| CellV::Missing) =~= Seq::<CellV>::empty());
                    assert(row_base@ + row_spec@.take(limit as int) + Seq::new(
                        0nat,
                        |i: int| CellV::Missing,
                    ) =~= row_base@ + conform_row(row_spec@, width as int));
                } else {
                    assert(limit == row_spec@.len());
                    assert(row_spec@.take(limit as int) =~= row_spec@);
                    assert(row_base@ + row_spec@.take(limit as int) + Seq::new(
                        (width - limit) as nat,
                        |i: int| CellV::Missing,
                    ) =~= row_base@ + conform_row(row_spec@, width as int));
                }
                lemma_read_cells_fitted_push(
                    dl@.take(li - start),
                    dl@[li - start],
                    separator,
                    missing_value@,
                    date_format@,
                    width as int,
                );
            } else {
                assert(row_spec@.take(row_spec@.len() as int) =~= row_spec@);
                lemma_read_cells_push(
                    dl@.take(li - start),
                    dl@[li - start],
                    separator,
                    missing_value@,
                    date_format@,
                );
            }
            assert(dl@[li - start] == views_of(lines@)[li as int]);
            assert(views_of(lines@)[li as int] == lines@[li as int]@);
            assert(dl@.take(li + 1 - start) =~= dl@.take(li - start).push(dl@[li - start]));
        }
        li = li + 1;
    }
    proof {
        assert(dl@.take(lines@.len() - start) =~= dl@);
        if has_header {
            lemma_fitted_len(dl@, separator, missing_value@, date_format@, width as int);
        }
    }
    let rows = lines.len() - start;
    Table { columns, cells, rows }
}

} // verus!
