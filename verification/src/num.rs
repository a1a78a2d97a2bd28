//! Verified decimal integer parsing and formatting, matching the grammar
//! that std documents for `i32`/`i64` from text: an optional `+` or `-`
//! sign followed by one or more ASCII digits, with out-of-range values
//! rejected. Formatting renders the value the way std's decimal display
//! does: a `-` for negatives and no leading zeros.

use vstd::prelude::*;

verus! {

/// An ASCII decimal digit.
pub open spec fn is_ascii_digit(b: u8) -> bool {
    48 <= b <= 57
}

/// Whether every byte of `s` is an ASCII decimal digit.
pub open spec fn all_digits(s: Seq<u8>) -> bool {
    forall|i: int| 0 <= i < s.len() ==> is_ascii_digit(s[i])
}

/// The value of a sequence of ASCII digits, most significant first.
pub open spec fn digits_value(s: Seq<u8>) -> int
    decreases s.len(),
{
    if s.len() == 0 {
        0
    } else {
        digits_value(s.drop_last()) * 10 + (s.last() - 48)
    }
}

/// Whether `s` opens with an explicit `+` or `-` sign.
pub open spec fn has_sign(s: Seq<u8>) -> bool {
    s.len() > 0 && (s[0] == 43 || s[0] == 45)
}

/// The digit part of `s`, with any leading sign removed.
pub open spec fn int_digits(s: Seq<u8>) -> Seq<u8> {
    if has_sign(s) {
        s.skip(1)
    } else {
        s
    }
}

/// Whether `s` is a decimal integer literal: an optional sign followed by
/// at least one digit, and nothing else.
pub open spec fn is_int_text(s: Seq<u8>) -> bool {
    int_digits(s).len() > 0 && all_digits(int_digits(s))
}

/// The signed value of the integer literal `s`.
pub open spec fn int_text_value(s: Seq<u8>) -> int {
    if s.len() > 0 && s[0] == 45 {
        -digits_value(int_digits(s))
    } else {
        digits_value(int_digits(s))
    }
}

/// What parsing `s` as an `i32` yields: the literal's value when it is in
/// range, and nothing otherwise.
pub open spec fn spec_parse_i32(s: Seq<u8>) -> Option<i32> {
    if is_int_text(s) && i32::MIN <= int_text_value(s) <= i32::MAX {
        Some(int_text_value(s) as i32)
    } else {
        None
    }
}

/// What parsing `s` as an `i64` yields: the literal's value when it is in
/// range, and nothing otherwise.
pub open spec fn spec_parse_i64(s: Seq<u8>) -> Option<i64> {
    if is_int_text(s) && i64::MIN <= int_text_value(s) <= i64::MAX {
        Some(int_text_value(s) as i64)
    } else {
        None
    }
}

/// A digit sequence has a nonnegative value.
pub proof fn lemma_digits_value_nonneg(s: Seq<u8>)
    requires
        all_digits(s),
    ensures
        digits_value(s) >= 0,
    decreases s.len(),
{
    if s.len() > 0 {
        assert(all_digits(s.drop_last()));
        lemma_digits_value_nonneg(s.drop_last());
    }
}

/// Extending a digit sequence never shrinks its value.
pub proof fn lemma_digits_value_prefix(s: Seq<u8>, k: int)
    requires
        all_digits(s),
        0 <= k <= s.len(),
    ensures
        digits_value(s.take(k)) <= digits_value(s),
    decreases s.len() - k,
{
    if k < s.len() {
        lemma_digits_value_prefix(s, k + 1);
        assert(s.take(k + 1).drop_last() =~= s.take(k));
        assert(s.take(k + 1).last() == s[k]);
        assert(all_digits(s.take(k)));
        lemma_digits_value_nonneg(s.take(k));
    } else {
        assert(s.take(k) =~= s);
    }
}

/// Parses `s` as a decimal `i64`, exactly as `spec_parse_i64` describes.
pub fn parse_i64(s: &Vec<u8>) -> (r: Option<i64>)
    ensures
        r == spec_parse_i64(s@),
{
    if s.len() == 0 {
        return None;
    }
    let neg = s[0] == 45u8;
    let start: usize = if s[0] == 45u8 || s[0] == 43u8 {
        1
    } else {
        0
    };
    if s.len() == start {
        return None;
    }
    let mut acc: u128 = 0;
    let mut i: usize = start;
    proof {
        assert(s@.subrange(start as int, start as int) =~= Seq::<u8>::empty());
    }
    while i < s.len()
        invariant
            start <= i <= s@.len(),
            start == (if has_sign(s@) { 1int } else { 0 }),
            start < s@.len(),
            neg == (s@[0] == 45),
            all_digits(s@.subrange(start as int, i as int)),
            acc == digits_value(s@.subrange(start as int, i as int)),
            acc <= 0x8000_0000_0000_0000u128,
        decreases s@.len() - i,
    {
        let b = s[i];
        if b < 48 || b > 57 {
            proof {
                assert(int_digits(s@)[i - start] == s@[i as int]);
                assert(!all_digits(int_digits(s@)));
            }
            return None;
        }
        proof {
            assert(s@.subrange(start as int, i + 1).drop_last() =~= s@.subrange(
                start as int,
                i as int,
            ));
            assert(s@.subrange(start as int, i + 1).last() == s@[i as int]);
        }
        acc = acc * 10 + ((b - 48) as u128);
        i = i + 1;
        if acc > 0x8000_0000_0000_0000u128 {
            proof {
                let d = int_digits(s@);
                if all_digits(d) {
                    assert(d.take(i - start) =~= s@.subrange(start as int, i as int));
                    lemma_digits_value_prefix(d, i - start);
                    assert(digits_value(d) > 0x8000_0000_0000_0000);
                }
            }
            return None;
        }
    }
    proof {
        assert(s@.subrange(start as int, s@.len() as int) =~= int_digits(s@));
        assert(is_int_text(s@));
    }
    if neg {
        if acc == 0x8000_0000_0000_0000u128 {
            Some(i64::MIN)
        } else {
            Some(-((acc as i64)))
        }
    } else {
        if acc == 0x8000_0000_0000_0000u128 {
            None
        } else {
            Some(acc as i64)
        }
    }
}

/// Parses `s` as a decimal `i32`, exactly as `spec_parse_i32` describes.
pub fn parse_i32(s: &Vec<u8>) -> (r: Option<i32>)
    ensures
        r == spec_parse_i32(s@),
{
    match parse_i64(s) {
        Some(v) => {
            if i32::MIN as i64 <= v && v <= i32::MAX as i64 {
                Some(v as i32)
            } else {
                None
            }
        },
        None => None,
    }
}

/// The decimal digits of the nonnegative value `n`, no leading zeros.
pub open spec fn spec_fmt_nat(n: int) -> Seq<u8>
    decreases n,
{
    if n < 10 {
        seq![(n + 48) as u8]
    } else {
        spec_fmt_nat(n / 10).push((n % 10 + 48) as u8)
    }
}

/// The decimal text of the signed value `v`: a `-` for negatives, then the
/// digits of the magnitude.
pub open spec fn spec_fmt_int(v: int) -> Seq<u8> {
    if v < 0 {
        seq![45u8] + spec_fmt_nat(-v)
    } else {
        spec_fmt_nat(v)
    }
}

/// The digits of `n` are digits, value back to `n`, and never sign-leading.
pub proof fn lemma_fmt_nat_value(n: int)
    requires
        n >= 0,
    ensures
        all_digits(spec_fmt_nat(n)),
        spec_fmt_nat(n).len() > 0,
        digits_value(spec_fmt_nat(n)) == n,
    decreases n,
{
    if n < 10 {
        let t = spec_fmt_nat(n);
        assert((n + 48) as u8 == n + 48);
        assert(t.last() == (n + 48) as u8);
        assert(t.drop_last() =~= Seq::<u8>::empty());
        assert(digits_value(t) == digits_value(t.drop_last()) * 10 + (t.last() - 48));
    } else {
        lemma_fmt_nat_value(n / 10);
        let t = spec_fmt_nat(n);
        assert(t.drop_last() =~= spec_fmt_nat(n / 10));
        assert(t.last() == (n % 10 + 48) as u8);
        assert((n % 10 + 48) as u8 == n % 10 + 48);
        assert(digits_value(t) == digits_value(t.drop_last()) * 10 + (t.last() - 48));
        assert(digits_value(t) == (n / 10) * 10 + n % 10);
        assert forall|i: int| 0 <= i < t.len() implies is_ascii_digit(#[trigger] t[i]) by {
            if i < t.len() - 1 {
                assert(t[i] == spec_fmt_nat(n / 10)[i]);
            }
        }
    }
}

/// Formatting then parsing a 64-bit value gives the value back.
pub proof fn lemma_parse_fmt_i64(v: i64)
    ensures
        spec_parse_i64(spec_fmt_int(v as int)) == Some(v),
{
    let s = spec_fmt_int(v as int);
    if v >= 0 {
        lemma_fmt_nat_value(v as int);
        assert(is_ascii_digit(s[0]));
        assert(!has_sign(s));
        assert(int_digits(s) == s);
    } else {
        lemma_fmt_nat_value(-(v as int));
        assert(s[0] == 45);
        assert(has_sign(s));
        assert(int_digits(s) =~= spec_fmt_nat(-(v as int)));
    }
}

/// Formatting then parsing a value in 32-bit range gives the value back.
pub proof fn lemma_parse_fmt_i32(v: i32)
    ensures
        spec_parse_i32(spec_fmt_int(v as int)) == Some(v),
{
    lemma_parse_fmt_i64(v as i64);
    assert(spec_fmt_int(v as i64 as int) == spec_fmt_int(v as int));
}

/// Renders `v` as decimal text, exactly as `spec_fmt_int` describes.
pub fn fmt_i64(v: i64) -> (r: Vec<u8>)
    ensures
        r@ == spec_fmt_int(v as int),
{
    let mag: u64 = if v >= 0 {
        v as u64
    } else {
        (-((v as i128))) as u64
    };
    let mut tmp: Vec<u8> = Vec::new();
    let mut m: u64 = mag;
    if m == 0 {
        tmp.push(48u8);
        proof {
            assert(tmp@.reverse() =~= seq![48u8]);
            assert(spec_fmt_nat(0) =~= seq![48u8]);
        }
    } else {
        proof {
            assert(tmp@.reverse() =~= Seq::<u8>::empty());
            assert(spec_fmt_nat(mag as int) + Seq::<u8>::empty() =~= spec_fmt_nat(mag as int));
        }
        while m > 0
            invariant
                m > 0 ==> spec_fmt_nat(mag as int) == spec_fmt_nat(m as int) + tmp@.reverse(),
                m == 0 ==> spec_fmt_nat(mag as int) == tmp@.reverse(),
            decreases m,
        {
            let d: u8 = (m % 10) as u8 + 48;
            let m2: u64 = m / 10;
            proof {
                assert((tmp@.push(d)).reverse() =~= seq![d] + tmp@.reverse());
                if m2 > 0 {
                    assert(spec_fmt_nat(m as int) == spec_fmt_nat(m as int / 10).push(
                        (m as int % 10 + 48) as u8,
                    ));
                    assert(spec_fmt_nat(m2 as int).push(d) + tmp@.reverse() =~= spec_fmt_nat(
                        m2 as int,
                    ) + (seq![d] + tmp@.reverse()));
                } else {
                    assert(spec_fmt_nat(m as int) =~= seq![d]);
                }
            }
            tmp.push(d);
            m = m2;
        }
    }
    let mut out: Vec<u8> = Vec::new();
    if v < 0 {
        out.push(45u8);
    }
    let sign = Ghost(out@);
    let mut j: usize = 0;
    while j < tmp.len()
        invariant
            0 <= j <= tmp@.len(),
            sign@ == (if v < 0 {
                seq![45u8]
            } else {
                Seq::<u8>::empty()
            }),
            out@ == sign@ + tmp@.reverse().take(j as int),
        decreases tmp@.len() - j,
    {
        let b = tmp[tmp.len() - 1 - j];
        proof {
            assert(tmp@.reverse()[j as int] == tmp@[tmp@.len() - 1 - j]);
            assert(sign@ + tmp@.reverse().take(j + 1) =~= (sign@ + tmp@.reverse().take(
                j as int,
            )).push(tmp@.reverse()[j as int]));
        }
        out.push(b);
        j = j + 1;
    }
    proof {
        assert(tmp@.reverse().take(tmp@.len() as int) =~= tmp@.reverse());
        assert(spec_fmt_nat(mag as int) == tmp@.reverse());
        if v < 0 {
            assert(out@ =~= seq![45u8] + spec_fmt_nat(-(v as int)));
        } else {
            assert(out@ =~= spec_fmt_nat(v as int));
        }
    }
    out
}

/// Renders a 32-bit value as decimal text.
pub fn fmt_i32(v: i32) -> (r: Vec<u8>)
    ensures
        r@ == spec_fmt_int(v as int),
{
    let r = fmt_i64(v as i64);
    proof {
        assert(spec_fmt_int(v as i64 as int) == spec_fmt_int(v as int));
    }
    r
}

} // verus!
