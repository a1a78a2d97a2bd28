//! Verified recognition of floating-point literals, following the grammar
//! std documents for `f32`/`f64` from text: an optional sign, then either
//! `inf`, `infinity` or `nan` (case-insensitive) or a number made of digits
//! with at most one dot and at least one digit, optionally followed by an
//! exponent marker `e`/`E` with a signed digit count. Parsing floats from
//! text only fails on syntax (out-of-range values round), so this predicate
//! is exactly "the field parses as a float".

use vstd::prelude::*;

use crate::num::{all_digits, int_digits, is_ascii_digit, is_int_text};

verus! {

/// ASCII upper-case letters folded to lower case; other bytes unchanged.
pub open spec fn lower(b: u8) -> u8 {
    if 65 <= b <= 90 {
        (b + 32) as u8
    } else {
        b
    }
}

/// Whether `s` spells the (lower-case) word `t`, ignoring case.
pub open spec fn is_word_ci(s: Seq<u8>, t: Seq<u8>) -> bool {
    s.len() == t.len() && forall|i: int| 0 <= i < s.len() ==> lower(#[trigger] s[i]) == t[i]
}

/// The special float words: `inf`, `infinity` and `nan`.
pub open spec fn is_special_float_word(s: Seq<u8>) -> bool {
    is_word_ci(s, seq![105u8, 110u8, 102u8]) || is_word_ci(
        s,
        seq![105u8, 110u8, 102u8, 105u8, 110u8, 105u8, 116u8, 121u8],
    ) || is_word_ci(s, seq![110u8, 97u8, 110u8])
}

/// An exponent marker byte: `e` or `E`.
pub open spec fn is_exp_marker(b: u8) -> bool {
    b == 101 || b == 69
}

/// Index of the first exponent marker in `s`, or `s.len()` if absent.
pub open spec fn first_exp(s: Seq<u8>) -> nat
    decreases s.len(),
{
    if s.len() == 0 {
        0
    } else if is_exp_marker(s[0]) {
        0
    } else {
        1 + first_exp(s.skip(1))
    }
}

/// `first_exp` points at the first exponent marker, or past the end.
pub proof fn lemma_first_exp(s: Seq<u8>)
    ensures
        first_exp(s) <= s.len(),
        first_exp(s) < s.len() ==> is_exp_marker(s[first_exp(s) as int]),
        forall|k: int| 0 <= k < first_exp(s) ==> !is_exp_marker(s[k]),
    decreases s.len(),
{
    if s.len() == 0 {
    } else if is_exp_marker(s[0]) {
    } else {
        lemma_first_exp(s.skip(1));
        assert forall|k: int| 0 <= k < first_exp(s) implies !is_exp_marker(s[k]) by {
            if k > 0 {
                assert(s.skip(1)[k - 1] == s[k]);
            }
        }
    }
}

/// A float mantissa: digits with at most one dot and at least one digit.
pub open spec fn is_mantissa(m: Seq<u8>) -> bool {
    &&& m.len() > 0
    &&& exists|i: int| 0 <= i < m.len() && is_ascii_digit(m[i])
    &&& forall|i: int| 0 <= i < m.len() ==> is_ascii_digit(#[trigger] m[i]) || m[i] == 46
    &&& forall|i: int, j: int| 0 <= i < j < m.len() && m[i] == 46 ==> m[j] != 46
}

/// An unsigned float number: a mantissa, optionally followed by an
/// exponent marker and a signed digit count.
pub open spec fn is_float_number(b: Seq<u8>) -> bool {
    let i = first_exp(b);
    if i >= b.len() {
        is_mantissa(b)
    } else {
        is_mantissa(b.take(i as int)) && is_int_text(b.skip(i as int + 1))
    }
}

/// Whether `s` is a float literal per std's documented grammar.
pub open spec fn is_float_text(s: Seq<u8>) -> bool {
    is_special_float_word(int_digits(s)) || is_float_number(int_digits(s))
}

/// Folds one byte to lower case.
fn lower_byte(b: u8) -> (r: u8)
    ensures
        r == lower(b),
{
    if 65 <= b && b <= 90 {
        b + 32
    } else {
        b
    }
}

/// Whether the bytes of `s` from `start` on spell `word` ignoring case;
/// `word` must already be lower case.
fn tail_matches_ci(s: &Vec<u8>, start: usize, word: &Vec<u8>) -> (r: bool)
    requires
        start <= s@.len(),
    ensures
        r == is_word_ci(s@.skip(start as int), word@),
{
    if s.len() - start != word.len() {
        return false;
    }
    let mut k: usize = start;
    while k < s.len()
        invariant
            start <= k <= s@.len(),
            start + word@.len() == s@.len(),
            forall|t: int| 0 <= t < k - start ==> lower(#[trigger] s@.skip(start as int)[t])
                == word@[t],
        decreases s@.len() - k,
    {
        proof {
            assert(s@.skip(start as int)[k - start] == s@[k as int]);
        }
        if lower_byte(s[k]) != word[k - start] {
            return false;
        }
        k = k + 1;
    }
    true
}

/// Whether the bytes of `s` in `[lo, hi)` form a mantissa.
fn range_is_mantissa(s: &Vec<u8>, lo: usize, hi: usize) -> (r: bool)
    requires
        lo <= hi <= s@.len(),
    ensures
        r == is_mantissa(s@.subrange(lo as int, hi as int)),
{
    let m = Ghost(s@.subrange(lo as int, hi as int));
    if lo == hi {
        return false;
    }
    let mut seen_digit: bool = false;
    let mut dot_at: usize = hi;
    let mut i: usize = lo;
    while i < hi
        invariant
            lo <= i <= hi <= s@.len(),
            m@ == s@.subrange(lo as int, hi as int),
            seen_digit == exists|k: int| 0 <= k < i - lo && is_ascii_digit(#[trigger] m@[k]),
            forall|k: int| 0 <= k < i - lo ==> is_ascii_digit(#[trigger] m@[k]) || m@[k] == 46,
            dot_at <= hi,
            dot_at == hi ==> forall|k: int| 0 <= k < i - lo ==> m@[k] != 46,
            dot_at < hi ==> lo <= dot_at < i && m@[dot_at - lo] == 46 && forall|k: int|
                0 <= k < i - lo && k != dot_at - lo ==> m@[k] != 46,
        decreases hi - i,
    {
        let b = s[i];
        proof {
            assert(m@[i - lo] == s@[i as int]);
        }
        if 48 <= b && b <= 57 {
            seen_digit = true;
        } else if b == 46 {
            if dot_at < hi {
                proof {
                    let p = dot_at - lo;
                    let q = i - lo;
                    assert(m@[p] == 46 && m@[q] == 46 && p < q);
                }
                return false;
            }
            dot_at = i;
        } else {
            proof {
                assert(!(is_ascii_digit(m@[i - lo]) || m@[i - lo] == 46));
            }
            return false;
        }
        i = i + 1;
    }
    if !seen_digit {
        return false;
    }
    proof {
        assert forall|p: int, q: int| 0 <= p < q < m@.len() && m@[p] == 46 implies m@[q] != 46 by {
            if dot_at == hi {
                assert(m@[p] != 46);
            } else {
                if p != dot_at - lo {
                    assert(m@[p] != 46);
                }
                assert(q != dot_at - lo);
                assert(m@[q] != 46);
            }
        }
    }
    true
}

/// Whether the bytes of `s` in `[lo, hi)` form a signed digit count.
fn range_is_int_text(s: &Vec<u8>, lo: usize, hi: usize) -> (r: bool)
    requires
        lo <= hi <= s@.len(),
    ensures
        r == is_int_text(s@.subrange(lo as int, hi as int)),
{
    let x = Ghost(s@.subrange(lo as int, hi as int));
    if lo == hi {
        return false;
    }
    let d: usize = if s[lo] == 43u8 || s[lo] == 45u8 {
        lo + 1
    } else {
        lo
    };
    proof {
        assert(x@[0] == s@[lo as int]);
        assert(int_digits(x@) =~= s@.subrange(d as int, hi as int));
    }
    if d == hi {
        return false;
    }
    let mut i: usize = d;
    while i < hi
        invariant
            lo <= d <= i <= hi <= s@.len(),
            d < hi,
            x@ == s@.subrange(lo as int, hi as int),
            int_digits(x@) == s@.subrange(d as int, hi as int),
            forall|k: int| d <= k < i ==> is_ascii_digit(#[trigger] s@[k]),
        decreases hi - i,
    {
        let b = s[i];
        if b < 48 || b > 57 {
            proof {
                assert(s@.subrange(d as int, hi as int)[i - d] == s@[i as int]);
            }
            return false;
        }
        i = i + 1;
    }
    proof {
        assert forall|k: int| 0 <= k < s@.subrange(d as int, hi as int).len() implies is_ascii_digit(
            #[trigger] s@.subrange(d as int, hi as int)[k],
        ) by {
            assert(s@.subrange(d as int, hi as int)[k] == s@[d + k]);
        }
    }
    true
}

/// Whether `s` is a float literal, exactly as `is_float_text` describes.
pub fn is_float_lit(s: &Vec<u8>) -> (r: bool)
    ensures
        r == is_float_text(s@),
{
    let start: usize = if s.len() > 0 && (s[0] == 43u8 || s[0] == 45u8) {
        1
    } else {
        0
    };
    let body = Ghost(int_digits(s@));
    proof {
        assert(body@ =~= s@.subrange(start as int, s@.len() as int));
    }
    let inf_w: Vec<u8> = vec![105u8, 110u8, 102u8];
    let infinity_w: Vec<u8> = vec![105u8, 110u8, 102u8, 105u8, 110u8, 105u8, 116u8, 121u8];
    let nan_w: Vec<u8> = vec![110u8, 97u8, 110u8];
    proof {
        assert(s@.skip(start as int) =~= body@);
        assert(inf_w@ =~= seq![105u8, 110u8, 102u8]);
        assert(infinity_w@ =~= seq![105u8, 110u8, 102u8, 105u8, 110u8, 105u8, 116u8, 121u8]);
        assert(nan_w@ =~= seq![110u8, 97u8, 110u8]);
    }
    if tail_matches_ci(s, start, &inf_w) || tail_matches_ci(s, start, &infinity_w)
        || tail_matches_ci(s, start, &nan_w) {
        return true;
    }
    // Find the first exponent marker in the body.
    let mut i: usize = start;
    while i < s.len() && s[i] != 101u8 && s[i] != 69u8
        invariant
            start <= i <= s@.len(),
            forall|k: int| start <= k < i ==> !is_exp_marker(#[trigger] s@[k]),
        decreases s@.len() - i,
    {
        i = i + 1;
    }
    proof {
        lemma_first_exp(body@);
        assert forall|k: int| 0 <= k < body@.len() implies body@[k] == s@[start + k] by {}
        if i < s@.len() {
            assert(is_exp_marker(body@[i - start]));
            if first_exp(body@) < i - start {
                assert(is_exp_marker(body@[first_exp(body@) as int]));
                assert(!is_exp_marker(s@[start + first_exp(body@)]));
            }
            assert(first_exp(body@) == i - start);
        } else {
            if first_exp(body@) < body@.len() {
                assert(is_exp_marker(body@[first_exp(body@) as int]));
                assert(!is_exp_marker(s@[start + first_exp(body@)]));
            }
            assert(first_exp(body@) == body@.len());
        }
    }
    let e_found = i < s.len();
    let e_pos = i;
    if !e_found {
        let r = range_is_mantissa(s, start, s.len());
        proof {
            assert(s@.subrange(start as int, s@.len() as int) =~= body@);
        }
        r
    } else {
        let m_ok = range_is_mantissa(s, start, e_pos);
        if !m_ok {
            proof {
                assert(s@.subrange(start as int, e_pos as int) =~= body@.take(
                    first_exp(body@) as int,
                ));
            }
            return false;
        }
        let x_ok = range_is_int_text(s, e_pos + 1, s.len());
        proof {
            assert(s@.subrange(start as int, e_pos as int) =~= body@.take(
                first_exp(body@) as int,
            ));
            assert(s@.subrange(e_pos + 1, s@.len() as int) =~= body@.skip(
                first_exp(body@) as int + 1,
            ));
        }
        x_ok
    }
}

} // verus!
