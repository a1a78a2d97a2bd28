use daany_csv::bytes::{join_with, split_on};
use daany_csv::cell::{Cell, CellObject, TYPE_DATETIME, TYPE_INT32, TYPE_TEXT};
use daany_csv::export::{acquire_table_for_export, free_columns, free_data, from_csv};
use daany_csv::float::is_float_lit;
use daany_csv::infer::infer_cell;
use daany_csv::num::{fmt_i32, fmt_i64, parse_i32, parse_i64};
use daany_csv::reader::read_table;
use daany_csv::writer::{format_csv_value, to_csv};

fn b(s: &str) -> Vec<u8> {
    s.as_bytes().to_vec()
}

fn infer(field: &str, sentinel: &str, pattern: &str) -> Cell {
    infer_cell(&b(field), &b(sentinel), &b(pattern))
}

#[test]
fn int_parse_basics() {
    assert_eq!(parse_i32(&b("123")), Some(123));
    assert_eq!(parse_i32(&b("-123")), Some(-123));
    assert_eq!(parse_i32(&b("+5")), Some(5));
    assert_eq!(parse_i32(&b("007")), Some(7));
    assert_eq!(parse_i32(&b("")), None);
    assert_eq!(parse_i32(&b("-")), None);
    assert_eq!(parse_i32(&b("12 ")), None);
    assert_eq!(parse_i32(&b(" 12")), None);
    assert_eq!(parse_i32(&b("1.0")), None);
    assert_eq!(parse_i32(&b("2147483647")), Some(i32::MAX));
    assert_eq!(parse_i32(&b("2147483648")), None);
    assert_eq!(parse_i32(&b("-2147483648")), Some(i32::MIN));
    assert_eq!(parse_i32(&b("-2147483649")), None);
}

#[test]
fn int_parse_matches_std() {
    let cases = [
        "0", "-0", "+0", "42", "-42", "007", "2147483647", "2147483648", "-2147483648",
        "-2147483649", "9223372036854775807", "9223372036854775808", "-9223372036854775808",
        "-9223372036854775809", "99999999999999999999999999999", "", "-", "+", "1e3", "1.5",
        "abc", "12_3", " 12",
    ];
    for s in cases {
        assert_eq!(parse_i32(&b(s)), s.parse::<i32>().ok(), "i32 {:?}", s);
        assert_eq!(parse_i64(&b(s)), s.parse::<i64>().ok(), "i64 {:?}", s);
    }
}

#[test]
fn int_format_matches_std() {
    for v in [
        0i64,
        1,
        -1,
        42,
        -42,
        i64::MAX,
        i64::MIN,
        i32::MAX as i64,
        i32::MIN as i64,
        1000,
        -1000,
    ] {
        assert_eq!(fmt_i64(v), v.to_string().into_bytes());
    }
    for v in [0i32, 7, -7, i32::MAX, i32::MIN] {
        assert_eq!(fmt_i32(v), v.to_string().into_bytes());
    }
}

#[test]
fn float_grammar_matches_std() {
    let cases = [
        "1", "1.", "1.5", ".5", "5.", "1e3", "1E3", "1e+3", "1e-3", "1.5e-3", ".5e3", "1.e3",
        "inf", "-inf", "+inf", "INF", "infinity", "Infinity", "nan", "NaN", "-NaN", "", ".",
        "e3", "1e", "1e+", "+", "-", "1.5.3", "1..5", "in", "infx", "nano", "1f", "0x1",
        "1_000", " 1", "1 ", "--1", "1e3.5", "123456789012345678901234567890",
    ];
    for s in cases {
        assert_eq!(
            is_float_lit(&b(s)),
            s.parse::<f32>().is_ok(),
            "float grammar vs std for {:?}",
            s
        );
        assert_eq!(
            is_float_lit(&b(s)),
            s.parse::<f64>().is_ok(),
            "float grammar vs std f64 for {:?}",
            s
        );
    }
}

#[test]
fn order_preference() {
    assert!(matches!(infer("123", "[Missing]", ""), Cell::Int32(123)));
    assert!(matches!(infer("123456789012", "[Missing]", ""), Cell::Int64(123456789012)));
    match infer("1.5", "[Missing]", "") {
        Cell::Float32(t) => assert_eq!(t, b("1.5")),
        other => panic!("expected a float cell, got {:?}", tag_of(&other)),
    }
    assert!(matches!(infer("", "[Missing]", ""), Cell::Missing));
    assert!(matches!(infer("[Missing]", "[Missing]", ""), Cell::Missing));
}

#[test]
fn datetime_inference_epoch_value() {
    match infer("2024-04-25", "[Missing]", "%Y-%m-%d") {
        Cell::DateTime(ms) => assert_eq!(ms, 1714003200000),
        other => panic!("expected a datetime cell, got {:?}", tag_of(&other)),
    }
    match infer("2024-04-25 06:30:00", "[Missing]", "%Y-%m-%d %H:%M:%S") {
        Cell::DateTime(ms) => assert_eq!(ms, 1714026600000),
        other => panic!("expected a datetime cell, got {:?}", tag_of(&other)),
    }
    // Without a pattern, datetime inference is disabled.
    match infer("2024-04-25", "[Missing]", "") {
        Cell::Text(t) => assert_eq!(t, b("2024-04-25")),
        other => panic!("expected a text cell, got {:?}", tag_of(&other)),
    }
    // A pattern mismatch falls through to the other rules.
    assert!(matches!(infer("123", "[Missing]", "%Y-%m-%d"), Cell::Int32(123)));
}

#[test]
fn missing_precedence_over_numbers() {
    assert!(matches!(infer("-1", "-1", ""), Cell::Missing));
    assert!(matches!(infer("-1", "[Missing]", ""), Cell::Int32(-1)));
    assert!(matches!(infer("-1", "-1", "%Y-%m-%d"), Cell::Missing));
}

#[test]
fn inference_is_total_on_junk() {
    let sent = b("[Missing]");
    let pats = [b(""), b("%Y-%m-%d"), b("%q%q"), vec![0xffu8, 0xfeu8]];
    let fields = [
        "", "a", ",", "\"", "1", "-", "nan", "1e999", "\u{00e9}", "\t", "  ", "[Missing]",
        "9999999999999999999999", "0.0.0", "--", "%Y",
    ];
    for p in &pats {
        for f in &fields {
            // Always returns exactly one cell, never panics.
            let _ = infer_cell(&b(f), &sent, p);
        }
    }
}

fn tag_of(c: &Cell) -> i32 {
    match c {
        Cell::Int32(_) => 0,
        Cell::Int64(_) => 1,
        Cell::Float32(_) => 2,
        Cell::Float64(_) => 3,
        Cell::Text(_) => 4,
        Cell::DateTime(_) => 5,
        Cell::Missing => 6,
    }
}

#[test]
fn division_guard_zero_columns() {
    let data = vec![
        CellObject {
            type_id: TYPE_INT32,
            int_value: 1,
            long_value: 0,
            datetime_value: 0,
            string_value: None,
        },
        CellObject {
            type_id: TYPE_INT32,
            int_value: 2,
            long_value: 0,
            datetime_value: 0,
            string_value: None,
        },
    ];
    let cols: Vec<Vec<u8>> = Vec::new();
    let r = to_csv(&data, &cols, b',', true, &b("%Y-%m-%d"));
    assert!(r.is_err());
    let r2 = to_csv(&data, &vec![b("a")], b',', false, &b("%Y-%m-%d"));
    assert!(r2.is_ok());
}

#[test]
fn header_only_file() {
    let lines = vec![b("name,age,city")];
    let (cols, col_count, data, row_count) = from_csv(&lines, b',', &b(""), &b(""), true);
    assert_eq!(col_count, 3);
    assert_eq!(cols.names, vec![b("name"), b("age"), b("city")]);
    assert_eq!(row_count, 0);
    assert!(data.cells.is_empty());
}

#[test]
fn separator_in_text_is_quoted() {
    let cell = CellObject {
        type_id: TYPE_TEXT,
        int_value: 0,
        long_value: 0,
        datetime_value: 0,
        string_value: Some(b("a,b")),
    };
    assert_eq!(format_csv_value(&cell, b',', &b("")), b("\"a,b\""));
    // With a different separator the same text stays bare.
    assert_eq!(format_csv_value(&cell, b';', &b("")), b("a,b"));
}

#[test]
fn datetime_formatting() {
    let cell = CellObject {
        type_id: TYPE_DATETIME,
        int_value: 0,
        long_value: 0,
        datetime_value: 1714003200000,
        string_value: Some(b("ignored")),
    };
    assert_eq!(format_csv_value(&cell, b',', &b("%Y-%m-%d")), b("2024-04-25"));
    let out_of_range = CellObject {
        type_id: TYPE_DATETIME,
        int_value: 0,
        long_value: 0,
        datetime_value: i64::MAX,
        string_value: None,
    };
    assert_eq!(format_csv_value(&out_of_range, b',', &b("%Y-%m-%d")), b("[Invalid DateTime]"));
}

#[test]
fn missing_renders_empty_and_unknown_tag() {
    let missing = CellObject {
        type_id: TYPE_TEXT,
        int_value: 0,
        long_value: 0,
        datetime_value: 0,
        string_value: None,
    };
    assert_eq!(format_csv_value(&missing, b',', &b("")), b(""));
    let unknown = CellObject {
        type_id: 9,
        int_value: 0,
        long_value: 0,
        datetime_value: 0,
        string_value: None,
    };
    assert_eq!(format_csv_value(&unknown, b',', &b("")), b("Unknown"));
}

#[test]
fn ragged_rows_conform_to_header_width() {
    // Short rows are padded with missing cells, long rows truncated, so
    // the grid is always rows-by-columns when a header declares the width.
    let lines = vec![b("a,b,c"), b("1"), b("1,2,3,4")];
    let t = read_table(&lines, b',', &b(""), &b(""), true);
    assert_eq!(t.columns.len(), 3);
    assert_eq!(t.rows, 2);
    assert_eq!(t.cells.len(), 6);
    assert!(matches!(t.cells[0], Cell::Int32(1)));
    assert!(matches!(t.cells[1], Cell::Missing));
    assert!(matches!(t.cells[2], Cell::Missing));
    assert!(matches!(t.cells[3], Cell::Int32(1)));
    assert!(matches!(t.cells[4], Cell::Int32(2)));
    assert!(matches!(t.cells[5], Cell::Int32(3)));
    // The exported counts always satisfy the grid invariant, so the
    // release contract is satisfiable with exactly what was handed out.
    let (cols, col_count, data, row_count) = acquire_table_for_export(&t);
    assert_eq!(data.cells.len(), row_count * col_count);
    let mut col_slot = Some(cols);
    let mut data_slot = Some(data);
    free_columns(&mut col_slot, col_count);
    free_data(&mut data_slot, row_count, col_count);
    assert!(col_slot.is_none() && data_slot.is_none());
}

#[test]
fn headerless_read_keeps_all_cells() {
    // Without a header no width is declared: the grid is the plain
    // concatenation of the rows as read.
    let lines = vec![b("1,2"), b("3")];
    let t = read_table(&lines, b',', &b(""), &b(""), false);
    assert_eq!(t.columns.len(), 0);
    assert_eq!(t.rows, 2);
    assert_eq!(t.cells.len(), 3);
    assert!(matches!(t.cells[0], Cell::Int32(1)));
    assert!(matches!(t.cells[1], Cell::Int32(2)));
    assert!(matches!(t.cells[2], Cell::Int32(3)));
}

#[test]
fn read_table_grid() {
    let lines = vec![b("a,b"), b("1,x"), b(",2.5")];
    let t = read_table(&lines, b',', &b(""), &b(""), true);
    assert_eq!(t.columns, vec![b("a"), b("b")]);
    assert_eq!(t.rows, 2);
    assert_eq!(t.cells.len(), 4);
    assert!(matches!(t.cells[0], Cell::Int32(1)));
    assert!(matches!(t.cells[1], Cell::Text(_)));
    assert!(matches!(t.cells[2], Cell::Missing));
    assert!(matches!(t.cells[3], Cell::Float32(_)));
}

#[test]
fn ownership_release_exactly_once() {
    let lines = vec![b("a,b"), b("hello,1"), b("world,[Missing]")];
    let t = read_table(&lines, b',', &b(""), &b("[Missing]"), true);
    let (cols, col_count, data, row_count) = acquire_table_for_export(&t);
    assert_eq!(col_count, 2);
    assert_eq!(row_count, 2);
    assert_eq!(data.cells.len(), 4);
    // The export owns deep copies: dropping the table leaves them intact.
    drop(t);
    assert_eq!(data.cells[0].string_value.as_deref(), Some(b("hello").as_slice()));
    // Release each handle exactly once; the slots are empty afterwards and
    // a second release of the same slot is a safe no-op.
    let mut col_slot = Some(cols);
    let mut data_slot = Some(data);
    free_columns(&mut col_slot, col_count);
    free_data(&mut data_slot, row_count, col_count);
    assert!(col_slot.is_none());
    assert!(data_slot.is_none());
    free_columns(&mut col_slot, col_count);
    free_data(&mut data_slot, row_count, col_count);
    assert!(col_slot.is_none());
    assert!(data_slot.is_none());
}

#[test]
fn round_trip_write_then_read() {
    let lines = vec![b("id,name,when,score"), b("7,ada,2024-04-25,1.25"), b("123456789012,bob,2020-01-01,[Missing]")];
    let sent = b("[Missing]");
    let pat = b("%Y-%m-%d");
    let t = read_table(&lines, b',', &pat, &sent, true);
    let (cols, col_count, data, _row_count) = acquire_table_for_export(&t);
    let out = to_csv(&data.cells, &cols.names, b',', true, &pat).unwrap();
    let text = String::from_utf8(out).unwrap();
    let out_lines: Vec<Vec<u8>> = text.lines().map(|l| l.as_bytes().to_vec()).collect();
    assert_eq!(out_lines[0], b("id,name,when,score"));
    assert_eq!(out_lines[1], b("7,ada,2024-04-25,1.25"));
    assert_eq!(out_lines[2], b("123456789012,bob,2020-01-01,"));
    let t2 = read_table(&out_lines, b',', &pat, &sent, true);
    assert_eq!(t2.columns, t.columns);
    assert_eq!(t2.rows, t.rows);
    assert_eq!(t2.cells.len(), t.cells.len());
    for (c1, c2) in t.cells.iter().zip(t2.cells.iter()) {
        match (c1, c2) {
            (Cell::Int32(a), Cell::Int32(b2)) => assert_eq!(a, b2),
            (Cell::Int64(a), Cell::Int64(b2)) => assert_eq!(a, b2),
            (Cell::Float32(a), Cell::Float32(b2)) => assert_eq!(a, b2),
            (Cell::Text(a), Cell::Text(b2)) => assert_eq!(a, b2),
            (Cell::DateTime(a), Cell::DateTime(b2)) => assert_eq!(a, b2),
            (Cell::Missing, Cell::Missing) => {}
            _ => panic!("tags differ after round trip: {} vs {}", tag_of(c1), tag_of(c2)),
        }
    }
}

#[test]
fn writer_truncates_partial_trailing_row() {
    let mk = |v: i32| CellObject {
        type_id: TYPE_INT32,
        int_value: v,
        long_value: 0,
        datetime_value: 0,
        string_value: None,
    };
    let data = vec![mk(1), mk(2), mk(3), mk(4), mk(5)];
    let cols = vec![b("a"), b("b")];
    let out = to_csv(&data, &cols, b',', false, &b("")).unwrap();
    assert_eq!(out, b("1,2\n3,4\n"));
}

#[test]
fn split_keeps_empty_fields() {
    assert_eq!(split_on(&b("a,b,"), b','), vec![b("a"), b("b"), b("")]);
    assert_eq!(split_on(&b(""), b','), vec![b("")]);
    assert_eq!(split_on(&b(",,"), b','), vec![b(""), b(""), b("")]);
    let parts = vec![b("x"), b(""), b("yz")];
    assert_eq!(join_with(&parts, b';'), b("x;;yz"));
    assert_eq!(split_on(&join_with(&parts, b';'), b';'), parts);
}

#[test]
fn quoting_asymmetry_on_read() {
    // A text field holding the separator is quoted on write, but reads do
    // no unwrapping: the quoted field comes back split at the separator.
    let cell = CellObject {
        type_id: TYPE_TEXT,
        int_value: 0,
        long_value: 0,
        datetime_value: 0,
        string_value: Some(b("a,b")),
    };
    let cols = vec![b("c")];
    let out = to_csv(&vec![cell], &cols, b',', false, &b("")).unwrap();
    assert_eq!(out, b("\"a,b\"\n"));
    let t = read_table(&vec![b("\"a,b\"")], b',', &b(""), &b(""), false);
    assert_eq!(t.rows, 1);
    assert_eq!(t.cells.len(), 2);
    assert!(matches!(&t.cells[0], Cell::Text(v) if v == &b("\"a")));
    assert!(matches!(&t.cells[1], Cell::Text(v) if v == &b("b\"")));
}

#[test]
fn float_cells_keep_their_text() {
    match infer("2.50", "[Missing]", "") {
        Cell::Float32(t) => assert_eq!(t, b("2.50")),
        other => panic!("expected a float cell, got {:?}", tag_of(&other)),
    }
    match infer("1e3", "[Missing]", "") {
        Cell::Float32(t) => assert_eq!(t, b("1e3")),
        other => panic!("expected a float cell, got {:?}", tag_of(&other)),
    }
    // An integer too large even for 64 bits classifies as a float.
    assert!(matches!(infer("9223372036854775808", "[Missing]", ""), Cell::Float32(_)));
}
