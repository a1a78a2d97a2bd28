//! Byte-sequence utilities for the codec: field splitting and joining on a
//! single separator byte, equality, and copying, with the spec-level
//! functions the rest of the crate states its contracts over.

use vstd::prelude::*;

verus! {

/// The views of a sequence of byte vectors.
pub open spec fn views_of(s: Seq<Vec<u8>>) -> Seq<Seq<u8>> {
    s.map_values(|v: Vec<u8>| v@)
}

/// Index of the first occurrence of `b` in `s`, or `s.len()` if absent.
pub open spec fn find_byte(s: Seq<u8>, b: u8) -> nat
    decreases s.len(),
{
    if s.len() == 0 {
        0
    } else if s[0] == b {
        0
    } else {
        1 + find_byte(s.skip(1), b)
    }
}

/// `find_byte` points at the first occurrence of `b`, or past the end.
pub proof fn lemma_find_byte(s: Seq<u8>, b: u8)
    ensures
        find_byte(s, b) <= s.len(),
        find_byte(s, b) < s.len() ==> s[find_byte(s, b) as int] == b,
        forall|k: int| 0 <= k < find_byte(s, b) ==> s[k] != b,
    decreases s.len(),
{
    if s.len() == 0 {
    } else if s[0] == b {
    } else {
        lemma_find_byte(s.skip(1), b);
        assert forall|k: int| 0 <= k < find_byte(s, b) implies s[k] != b by {
            if k > 0 {
                assert(s.skip(1)[k - 1] == s[k]);
            }
        }
    }
}

/// The fields of `s` split on the separator `sep`: always at least one
/// field, with empty fields kept.
pub open spec fn spec_split(s: Seq<u8>, sep: u8) -> Seq<Seq<u8>>
    decreases s.len(),
{
    let i = find_byte(s, sep);
    if i >= s.len() {
        seq![s]
    } else {
        seq![s.take(i as int)] + spec_split(s.skip(i as int + 1), sep)
    }
}

/// How `spec_split` unfolds at the first separator position `j`.
pub proof fn lemma_split_step(s: Seq<u8>, sep: u8, j: int)
    requires
        0 <= j <= s.len(),
        forall|k: int| 0 <= k < j ==> s[k] != sep,
        j < s.len() ==> s[j] == sep,
    ensures
        j == s.len() ==> spec_split(s, sep) == seq![s],
        j < s.len() ==> spec_split(s, sep) == seq![s.take(j)] + spec_split(s.skip(j + 1), sep),
{
    lemma_find_byte(s, sep);
    let i = find_byte(s, sep);
    if i < j {
        assert(s[i as int] == sep);
        assert(false);
    }
    if j < i {
        assert(s[j] != sep);
        assert(false);
    }
}

/// The fields joined with the separator `sep` between consecutive fields.
pub open spec fn spec_join(parts: Seq<Seq<u8>>, sep: u8) -> Seq<u8>
    decreases parts.len(),
{
    if parts.len() == 0 {
        Seq::empty()
    } else if parts.len() == 1 {
        parts[0]
    } else {
        parts[0] + seq![sep] + spec_join(parts.skip(1), sep)
    }
}

/// How `spec_join` grows when one more field is appended.
pub proof fn lemma_join_push(parts: Seq<Seq<u8>>, sep: u8, x: Seq<u8>)
    ensures
        parts.len() == 0 ==> spec_join(parts.push(x), sep) == x,
        parts.len() > 0 ==> spec_join(parts.push(x), sep) == spec_join(parts, sep) + seq![sep]
            + x,
    decreases parts.len(),
{
    if parts.len() == 0 {
        assert(parts.push(x)[0] == x);
        assert(spec_join(parts.push(x), sep) == x);
    } else if parts.len() == 1 {
        assert(parts.push(x)[0] == parts[0]);
        assert(parts.push(x).skip(1) =~= seq![x]);
        assert(seq![x].len() == 1);
        assert(seq![x][0] == x);
        assert(spec_join(seq![x], sep) == x);
        assert(spec_join(parts.push(x), sep) == parts[0] + seq![sep] + x);
    } else {
        lemma_join_push(parts.skip(1), sep, x);
        assert(parts.push(x).skip(1) =~= parts.skip(1).push(x));
        assert(parts.push(x)[0] == parts[0]);
    }
}

/// Splitting text that opens with a separator-free prefix and an explicit
/// separator yields that prefix, then the split of the rest.
pub proof fn lemma_split_prefix(a: Seq<u8>, rest: Seq<u8>, sep: u8)
    requires
        !a.contains(sep),
    ensures
        spec_split(a + seq![sep] + rest, sep) == seq![a] + spec_split(rest, sep),
{
    let s = a + seq![sep] + rest;
    assert forall|k: int| 0 <= k < a.len() implies s[k] != sep by {
        assert(s[k] == a[k]);
        if a[k] == sep {
            assert(a.contains(sep));
        }
    }
    assert(s[a.len() as int] == sep);
    lemma_split_step(s, sep, a.len() as int);
    assert(s.take(a.len() as int) =~= a);
    assert(s.skip(a.len() as int + 1) =~= rest);
}

/// A separator-free byte absent from every field is absent from the fields
/// joined with that separator.
pub proof fn lemma_join_free(parts: Seq<Seq<u8>>, sep: u8, x: u8)
    requires
        x != sep,
        forall|i: int| 0 <= i < parts.len() ==> !(#[trigger] parts[i]).contains(x),
    ensures
        !spec_join(parts, sep).contains(x),
    decreases parts.len(),
{
    let s = spec_join(parts, sep);
    if parts.len() == 0 {
        assert(!s.contains(x));
    } else if parts.len() == 1 {
        assert(s == parts[0]);
    } else {
        assert forall|i: int| 0 <= i < parts.skip(1).len() implies !(#[trigger] parts.skip(
            1,
        )[i]).contains(x) by {
            assert(parts.skip(1)[i] == parts[i + 1]);
        }
        lemma_join_free(parts.skip(1), sep, x);
        let a = parts[0];
        let rest = spec_join(parts.skip(1), sep);
        if s.contains(x) {
            let k = choose|k: int| 0 <= k < s.len() && s[k] == x;
            if k < a.len() {
                assert(a[k] == x);
                assert(a.contains(x));
            } else if k == a.len() {
                assert(s[k] == sep);
            } else {
                assert(rest[k - a.len() - 1] == x);
                assert(rest.contains(x));
            }
            assert(false);
        }
    }
}

/// Joining fields with a separator that occurs in none of them, then
/// splitting the result on that separator, recovers the fields exactly.
pub proof fn lemma_split_join(parts: Seq<Seq<u8>>, sep: u8)
    requires
        parts.len() > 0,
        forall|i: int| 0 <= i < parts.len() ==> !(#[trigger] parts[i]).contains(sep),
    ensures
        spec_split(spec_join(parts, sep), sep) == parts,
    decreases parts.len(),
{
    if parts.len() == 1 {
        let s = parts[0];
        lemma_find_byte(s, sep);
        if find_byte(s, sep) < s.len() {
            assert(s[find_byte(s, sep) as int] == sep);
            assert(s.contains(sep));
            assert(false);
        }
        assert(spec_join(parts, sep) == s);
        assert(spec_split(s, sep) =~= seq![s]);
        assert(seq![s] =~= parts);
    } else {
        let s = spec_join(parts, sep);
        let a = parts[0];
        let rest = spec_join(parts.skip(1), sep);
        assert(s == a + seq![sep] + rest);
        assert forall|k: int| 0 <= k < a.len() implies s[k] != sep by {
            assert(s[k] == a[k]);
            if a[k] == sep {
                assert(a.contains(sep));
            }
        }
        assert(s[a.len() as int] == sep);
        lemma_split_step(s, sep, a.len() as int);
        assert(s.take(a.len() as int) =~= a);
        assert(s.skip(a.len() as int + 1) =~= rest);
        assert forall|i: int| 0 <= i < parts.skip(1).len() implies !(#[trigger] parts.skip(
            1,
        )[i]).contains(sep) by {
            assert(parts.skip(1)[i] == parts[i + 1]);
        }
        lemma_split_join(parts.skip(1), sep);
        assert(spec_split(s, sep) == seq![a] + parts.skip(1));
        assert(seq![a] + parts.skip(1) =~= parts);
    }
}

/// Whether `v` holds the byte `b`.
pub fn contains_byte(v: &Vec<u8>, b: u8) -> (r: bool)
    ensures
        r == v@.contains(b),
{
    let mut i: usize = 0;
    while i < v.len()
        invariant
            0 <= i <= v@.len(),
            forall|k: int| 0 <= k < i ==> v@[k] != b,
        decreases v@.len() - i,
    {
        if v[i] == b {
            return true;
        }
        i = i + 1;
    }
    false
}

/// Whether two byte vectors hold the same bytes.
pub fn bytes_eq(a: &Vec<u8>, b: &Vec<u8>) -> (r: bool)
    ensures
        r == (a@ == b@),
{
    if a.len() != b.len() {
        return false;
    }
    let mut i: usize = 0;
    while i < a.len()
        invariant
            0 <= i <= a@.len(),
            a@.len() == b@.len(),
            forall|k: int| 0 <= k < i ==> a@[k] == b@[k],
        decreases a@.len() - i,
    {
        if a[i] != b[i] {
            return false;
        }
        i = i + 1;
    }
    proof {
        assert(a@ =~= b@);
    }
    true
}

/// A fresh copy of the bytes of `v`.
pub fn copy_bytes(v: &Vec<u8>) -> (r: Vec<u8>)
    ensures
        r@ == v@,
{
    let mut out: Vec<u8> = Vec::new();
    let mut i: usize = 0;
    while i < v.len()
        invariant
            0 <= i <= v@.len(),
            out@ == v@.take(i as int),
        decreases v@.len() - i,
    {
        out.push(v[i]);
        proof {
            assert(out@ =~= v@.take(i + 1));
        }
        i = i + 1;
    }
    proof {
        assert(v@.take(v@.len() as int) =~= v@);
    }
    out
}

/// Appends the bytes of `src` onto the end of `dst`.
pub fn append_bytes(dst: &mut Vec<u8>, src: &Vec<u8>)
    ensures
        final(dst)@ == old(dst)@ + src@,
{
    let base = Ghost(dst@);
    let mut i: usize = 0;
    proof {
        assert(dst@ =~= base@ + src@.take(0));
    }
    while i < src.len()
        invariant
            0 <= i <= src@.len(),
            dst@ == base@ + src@.take(i as int),
        decreases src@.len() - i,
    {
        proof {
            assert(base@ + src@.take(i + 1) =~= (base@ + src@.take(i as int)).push(
                src@[i as int],
            ));
        }
        dst.push(src[i]);
        i = i + 1;
    }
    proof {
        assert(src@.take(src@.len() as int) =~= src@);
    }
}

/// Splits `line` on the separator byte, keeping empty fields.
pub fn split_on(line: &Vec<u8>, sep: u8) -> (r: Vec<Vec<u8>>)
    ensures
        views_of(r@) == spec_split(line@, sep),
{
    let s = Ghost(line@);
    let mut r: Vec<Vec<u8>> = Vec::new();
    let mut cur: Vec<u8> = Vec::new();
    let mut start: usize = 0;
    let mut i: usize = 0;
    proof {
        assert(views_of(r@) =~= Seq::<Seq<u8>>::empty());
        assert(s@.skip(0) =~= s@);
        assert(views_of(r@) + spec_split(s@.skip(0), sep) =~= spec_split(s@, sep));
    }
    while i < line.len()
        invariant
            0 <= start <= i <= s@.len(),
            s@ == line@,
            cur@ == s@.subrange(start as int, i as int),
            forall|k: int| start <= k < i ==> s@[k] != sep,
            spec_split(s@, sep) == views_of(r@) + spec_split(s@.skip(start as int), sep),
        decreases s@.len() - i,
    {
        if line[i] == sep {
            proof {
                let tail = s@.skip(start as int);
                lemma_split_step(tail, sep, i - start);
                assert(tail.take(i - start) =~= s@.subrange(start as int, i as int));
                assert(tail.skip(i - start + 1) =~= s@.skip(i + 1));
                assert(views_of(r@.push(cur)) =~= views_of(r@) + seq![cur@]);
                assert(views_of(r@) + (seq![cur@] + spec_split(s@.skip(i + 1), sep)) =~= (
                views_of(r@) + seq![cur@]) + spec_split(s@.skip(i + 1), sep));
            }
            r.push(cur);
            cur = Vec::new();
            start = i + 1;
            proof {
                assert(cur@ =~= s@.subrange(start as int, start as int));
            }
        } else {
            cur.push(line[i]);
            proof {
                assert(cur@ =~= s@.subrange(start as int, i + 1));
            }
        }
        i = i + 1;
    }
    proof {
        let tail = s@.skip(start as int);
        lemma_split_step(tail, sep, tail.len() as int);
        assert(cur@ =~= tail);
        assert(views_of(r@.push(cur)) =~= views_of(r@) + seq![tail]);
    }
    r.push(cur);
    r
}

/// Joins the fields with the separator byte between consecutive fields.
pub fn join_with(parts: &Vec<Vec<u8>>, sep: u8) -> (r: Vec<u8>)
    ensures
        r@ == spec_join(views_of(parts@), sep),
{
    let mut out: Vec<u8> = Vec::new();
    let mut i: usize = 0;
    while i < parts.len()
        invariant
            0 <= i <= parts@.len(),
            out@ == spec_join(views_of(parts@).take(i as int), sep),
        decreases parts@.len() - i,
    {
        proof {
            let pv = views_of(parts@);
            assert(pv.take(i + 1) =~= pv.take(i as int).push(pv[i as int]));
            lemma_join_push(pv.take(i as int), sep, pv[i as int]);
        }
        if i > 0 {
            out.push(sep);
        }
        let mut j: usize = 0;
        let part = &parts[i];
        let base = Ghost(out@);
        while j < part.len()
            invariant
                0 <= j <= part@.len(),
                out@ == base@ + part@.take(j as int),
            decreases part@.len() - j,
        {
            out.push(part[j]);
            proof {
                assert(base@ + part@.take(j + 1) =~= (base@ + part@.take(j as int)).push(
                part@[j as int]));
            }
            j = j + 1;
        }
        proof {
            assert(part@.take(part@.len() as int) =~= part@);
            let pv = views_of(parts@);
            if i == 0 {
                assert(out@ =~= pv[0]);
            } else {
                assert(out@ =~= spec_join(pv.take(i as int), sep) + seq![sep] + pv[i as int]);
            }
        }
        i = i + 1;
    }
    proof {
        assert(views_of(parts@).take(parts@.len() as int) =~= views_of(parts@));
    }
    out
}

} // verus!
