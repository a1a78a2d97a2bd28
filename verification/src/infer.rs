//! The type inferencer: classifies one raw text field into a cell, first
//! match wins, in this exact order: missing (empty field or the sentinel),
//! datetime (only when a pattern was supplied), 32-bit integer, 64-bit
//! integer, float, and finally verbatim text.

use vstd::prelude::*;

use crate::bytes::{bytes_eq, copy_bytes};
use crate::cell::{Cell, CellV};
use crate::float::{is_float_lit, is_float_text};
use crate::foreign::{dt_parse_spec, parse_datetime};
use crate::num::{parse_i32, parse_i64, spec_parse_i32, spec_parse_i64};

verus! {

/// The cell that the field `f` classifies as, under the missing-value
/// sentinel and the (possibly empty, meaning disabled) datetime pattern.
pub open spec fn spec_infer(f: Seq<u8>, sentinel: Seq<u8>, pattern: Seq<u8>) -> CellV {
    if f.len() == 0 || f == sentinel {
        CellV::Missing
    } else {
        match (if pattern.len() > 0 {
            dt_parse_spec(f, pattern)
        } else {
            None
        }) {
            Some(ms) => CellV::DateTime(ms),
            None => match spec_parse_i32(f) {
                Some(v) => CellV::Int32(v),
                None => match spec_parse_i64(f) {
                    Some(v) => CellV::Int64(v),
                    None => if is_float_text(f) {
                        CellV::Float32(f)
                    } else {
                        CellV::Text(f)
                    },
                },
            },
        }
    }
}

/// Classifies one field. Total: every field yields exactly one cell, the
/// one `spec_infer` describes, under every configuration.
pub fn infer_cell(field: &Vec<u8>, sentinel: &Vec<u8>, pattern: &Vec<u8>) -> (c: Cell)
    ensures
        c@ == spec_infer(field@, sentinel@, pattern@),
{
    if field.len() == 0 || bytes_eq(field, sentinel) {
        return Cell::Missing;
    }
    if pattern.len() > 0 {
        if let Some(ms) = parse_datetime(field, pattern) {
            return Cell::DateTime(ms);
        }
    }
    if let Some(v) = parse_i32(field) {
        return Cell::Int32(v);
    }
    if let Some(v) = parse_i64(field) {
        return Cell::Int64(v);
    }
    if is_float_lit(field) {
        Cell::Float32(copy_bytes(field))
    } else {
        Cell::Text(copy_bytes(field))
    }
}

/// A field equal to the missing-value sentinel classifies as missing before
/// any datetime or numeric interpretation is tried — even when the sentinel
/// itself is numeric-looking.
pub proof fn lemma_sentinel_precedence(f: Seq<u8>, sentinel: Seq<u8>, pattern: Seq<u8>)
    requires
        f == sentinel,
    ensures
        spec_infer(f, sentinel, pattern) == CellV::Missing,
{
}

} // verus!
