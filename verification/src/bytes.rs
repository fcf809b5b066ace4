//! Byte-string primitives: searching, splicing and replacing within the
//! UTF-8 bytes of a text. Searches compare bytes, which is what `str::find`
//! does for a text pattern.

use vstd::prelude::*;

verus! {

/// `pat` occurs in `s` starting at byte `i`.
pub open spec fn matches_at(s: Seq<u8>, pat: Seq<u8>, i: int) -> bool {
    0 <= i && i + pat.len() <= s.len() && s.subrange(i, i + pat.len()) == pat
}

/// The first position `i >= from` at which `pat` occurs in `s` entirely
/// before byte `to`, if any.
pub open spec fn first_match(s: Seq<u8>, pat: Seq<u8>, from: int, to: int) -> Option<int>
    decreases to - from,
{
    if from < 0 || from + pat.len() > to || to > s.len() {
        None
    } else if matches_at(s, pat, from) {
        Some(from)
    } else if from >= to {
        None
    } else {
        first_match(s, pat, from + 1, to)
    }
}

/// `pat` occurs somewhere in `s`.
pub open spec fn contains_bytes(s: Seq<u8>, pat: Seq<u8>) -> bool {
    exists|i: int| #[trigger] matches_at(s, pat, i)
}

/// `s` with the bytes in `[start, end)` cut out.
pub open spec fn cut(s: Seq<u8>, start: int, end: int) -> Seq<u8> {
    s.subrange(0, start) + s.subrange(end, s.len() as int)
}

/// `s` with `ins` inserted before byte `pos`.
pub open spec fn insert_bytes(s: Seq<u8>, pos: int, ins: Seq<u8>) -> Seq<u8> {
    s.subrange(0, pos) + ins + s.subrange(pos, s.len() as int)
}

/// Left-to-right, non-overlapping replacement of every occurrence of `pat`
/// in `s[i..]` by `rep`.
pub open spec fn replace_from(s: Seq<u8>, pat: Seq<u8>, rep: Seq<u8>, i: int) -> Seq<u8>
    decreases s.len() - i,
{
    if i < 0 || i >= s.len() {
        Seq::empty()
    } else if pat.len() > 0 && matches_at(s, pat, i) {
        rep + replace_from(s, pat, rep, i + pat.len())
    } else {
        seq![s[i]] + replace_from(s, pat, rep, i + 1)
    }
}

/// Replacement of every occurrence of `pat` in `s` by `rep`.
pub open spec fn replace_all(s: Seq<u8>, pat: Seq<u8>, rep: Seq<u8>) -> Seq<u8> {
    replace_from(s, pat, rep, 0)
}

/// What a successful search tells: the match lies at or after `from`, ends
/// before `to`, and really is an occurrence.
pub proof fn lemma_first_match_found(s: Seq<u8>, pat: Seq<u8>, from: int, to: int)
    ensures
        first_match(s, pat, from, to) matches Some(i) ==> from <= i && i + pat.len() <= to && to
            <= s.len() && matches_at(s, pat, i),
    decreases to - from,
{
    if !(from < 0 || from + pat.len() > to || to > s.len()) && !matches_at(s, pat, from) && from
        < to {
        lemma_first_match_found(s, pat, from + 1, to);
    }
}

/// No match before `i` means the search from `from` and from `i` agree.
proof fn lemma_first_match_skip(s: Seq<u8>, pat: Seq<u8>, from: int, i: int, to: int)
    requires
        0 <= from <= i,
        to <= s.len(),
        forall|k: int| from <= k < i ==> !matches_at(s, pat, k),
    ensures
        first_match(s, pat, from, to) == first_match(s, pat, i, to),
    decreases i - from,
{
    if from < i {
        if pat.len() == 0 && from <= s.len() {
            assert(s.subrange(from, from) =~= pat);
        }
        lemma_first_match_skip(s, pat, from + 1, i, to);
    }
}

/// Whether `pat` occurs at `i` in `s`.
pub fn bytes_match_at(s: &[u8], pat: &[u8], i: usize) -> (r: bool)
    ensures
        r == matches_at(s@, pat@, i as int),
{
    if i > s.len() || pat.len() > s.len() - i {
        return false;
    }
    let mut k: usize = 0;
    while k < pat.len()
        invariant
            i + pat.len() <= s.len(),
            k <= pat.len(),
            forall|j: int| 0 <= j < k ==> s@[i + j] == pat@[j],
        decreases pat.len() - k,
    {
        if s[i + k] != pat[k] {
            assert(s@.subrange(i as int, i + pat.len())[k as int] != pat@[k as int]);
            return false;
        }
        k = k + 1;
    }
    assert(s@.subrange(i as int, i + pat.len()) =~= pat@);
    true
}

/// The first position at or after `from` where `pat` occurs entirely before
/// byte `to`.
pub fn find_bytes(s: &[u8], pat: &[u8], from: usize, to: usize) -> (r: Option<usize>)
    ensures
        match r {
            Some(i) => first_match(s@, pat@, from as int, to as int) == Some(i as int),
            None => first_match(s@, pat@, from as int, to as int) is None,
        },
{
    if to > s.len() || from > to {
        return None;
    }
    let mut i = from;
    while pat.len() <= to - i
        invariant
            from <= i <= to,
            to <= s.len(),
            forall|k: int| from <= k < i ==> !matches_at(s@, pat@, k),
        decreases to - i,
    {
        proof {
            if pat@.len() == 0 {
                assert(s@.subrange(i as int, i as int) =~= pat@);
            }
        }
        if bytes_match_at(s, pat, i) {
            proof {
                lemma_first_match_skip(s@, pat@, from as int, i as int, to as int);
            }
            return Some(i);
        }
        i = i + 1;
    }
    proof {
        lemma_first_match_skip(s@, pat@, from as int, i as int, to as int);
    }
    None
}

/// Whether `pat` occurs anywhere in `s`.
pub fn bytes_contain(s: &[u8], pat: &[u8]) -> (r: bool)
    ensures
        r == contains_bytes(s@, pat@),
{
    let mut i: usize = 0;
    while i < s.len()
        invariant
            i <= s.len(),
            forall|k: int| 0 <= k < i ==> !matches_at(s@, pat@, k),
        decreases s.len() - i,
    {
        if bytes_match_at(s, pat, i) {
            return true;
        }
        i = i + 1;
    }
    if bytes_match_at(s, pat, i) {
        return true;
    }
    assert forall|k: int| !matches_at(s@, pat@, k) by {
        if 0 <= k < i {
        }
    }
    false
}

/// A copy of `s` with the bytes in `[start, end)` removed.
pub fn cut_bytes(s: &[u8], start: usize, end: usize) -> (r: Vec<u8>)
    requires
        start <= end <= s.len(),
    ensures
        r@ == cut(s@, start as int, end as int),
{
    let mut r: Vec<u8> = Vec::new();
    let mut i: usize = 0;
    while i < start
        invariant
            start <= end <= s.len(),
            i <= start,
            r@ == s@.subrange(0, i as int),
        decreases start - i,
    {
        r.push(s[i]);
        i = i + 1;
        assert(r@ =~= s@.subrange(0, i as int));
    }
    let mut j: usize = end;
    while j < s.len()
        invariant
            start <= end <= j <= s.len(),
            r@ == s@.subrange(0, start as int) + s@.subrange(end as int, j as int),
        decreases s.len() - j,
    {
        r.push(s[j]);
        j = j + 1;
        assert(r@ =~= s@.subrange(0, start as int) + s@.subrange(end as int, j as int));
    }
    r
}

/// A copy of `s` with `ins` inserted before byte `pos`.
pub fn insert_into(s: &[u8], pos: usize, ins: &[u8]) -> (r: Vec<u8>)
    requires
        pos <= s.len(),
    ensures
        r@ == insert_bytes(s@, pos as int, ins@),
{
    let mut r: Vec<u8> = Vec::new();
    let mut i: usize = 0;
    while i < pos
        invariant
            pos <= s.len(),
            i <= pos,
            r@ == s@.subrange(0, i as int),
        decreases pos - i,
    {
        r.push(s[i]);
        i = i + 1;
        assert(r@ =~= s@.subrange(0, i as int));
    }
    let mut k: usize = 0;
    while k < ins.len()
        invariant
            k <= ins.len(),
            r@ == s@.subrange(0, pos as int) + ins@.subrange(0, k as int),
        decreases ins.len() - k,
    {
        r.push(ins[k]);
        k = k + 1;
        assert(r@ =~= s@.subrange(0, pos as int) + ins@.subrange(0, k as int));
    }
    assert(ins@.subrange(0, ins.len() as int) =~= ins@);
    let mut j: usize = pos;
    while j < s.len()
        invariant
            pos <= j <= s.len(),
            r@ == s@.subrange(0, pos as int) + ins@ + s@.subrange(pos as int, j as int),
        decreases s.len() - j,
    {
        r.push(s[j]);
        j = j + 1;
        assert(r@ =~= s@.subrange(0, pos as int) + ins@ + s@.subrange(pos as int, j as int));
    }
    r
}

/// Append `tail` to `out`.
pub fn push_all(out: &mut Vec<u8>, tail: &[u8])
    ensures
        final(out)@ == old(out)@ + tail@,
{
    let mut k: usize = 0;
    while k < tail.len()
        invariant
            k <= tail.len(),
            out@ == old(out)@ + tail@.subrange(0, k as int),
        decreases tail.len() - k,
    {
        out.push(tail[k]);
        k = k + 1;
        assert(out@ =~= old(out)@ + tail@.subrange(0, k as int));
    }
    assert(tail@.subrange(0, tail.len() as int) =~= tail@);
}

proof fn lemma_replace_from_end(s: Seq<u8>, pat: Seq<u8>, rep: Seq<u8>, i: int)
    requires
        i >= s.len(),
    ensures
        replace_from(s, pat, rep, i) == Seq::<u8>::empty(),
{
}

/// A copy of `s` with every occurrence of `pat` replaced by `rep`, scanning
/// left to right without overlaps, as `str::replace` does.
pub fn replace_bytes(s: &[u8], pat: &[u8], rep: &[u8]) -> (r: Vec<u8>)
    requires
        pat@.len() > 0,
    ensures
        r@ == replace_all(s@, pat@, rep@),
{
    let mut out: Vec<u8> = Vec::new();
    let mut i: usize = 0;
    while i < s.len()
        invariant
            pat@.len() > 0,
            i <= s.len(),
            out@ + replace_from(s@, pat@, rep@, i as int) == replace_all(s@, pat@, rep@),
        decreases s.len() - i,
    {
        if bytes_match_at(s, pat, i) {
            let ghost before = out@;
            push_all(&mut out, rep);
            assert(before + replace_from(s@, pat@, rep@, i as int) == before + (rep@
                + replace_from(s@, pat@, rep@, i + pat@.len())));
            assert(before + (rep@ + replace_from(s@, pat@, rep@, i + pat@.len())) =~= out@
                + replace_from(s@, pat@, rep@, i + pat@.len()));
            i = i + pat.len();
        } else {
            let ghost before = out@;
            out.push(s[i]);
            assert(before + (seq![s@[i as int]] + replace_from(s@, pat@, rep@, i + 1)) =~= out@
                + replace_from(s@, pat@, rep@, i + 1));
            i = i + 1;
        }
    }
    proof {
        lemma_replace_from_end(s@, pat@, rep@, i as int);
        assert(out@ + Seq::<u8>::empty() =~= out@);
    }
    out
}


/// Replacing a pattern that does not occur changes nothing.
pub proof fn law_replace_without_match_is_identity(s: Seq<u8>, pat: Seq<u8>, rep: Seq<u8>)
    requires
        !contains_bytes(s, pat),
    ensures
        replace_all(s, pat, rep) == s,
{
    lemma_replace_from_no_match(s, pat, rep, 0);
    assert(s.subrange(0, s.len() as int) =~= s);
}

proof fn lemma_replace_from_no_match(s: Seq<u8>, pat: Seq<u8>, rep: Seq<u8>, i: int)
    requires
        0 <= i <= s.len(),
        !contains_bytes(s, pat),
    ensures
        replace_from(s, pat, rep, i) == s.subrange(i, s.len() as int),
    decreases s.len() - i,
{
    if i < s.len() {
        assert(!matches_at(s, pat, i));
        lemma_replace_from_no_match(s, pat, rep, i + 1);
        assert(s.subrange(i, s.len() as int) =~= seq![s[i]] + s.subrange(i + 1, s.len() as int));
    } else {
        assert(s.subrange(i, s.len() as int) =~= Seq::<u8>::empty());
    }
}

} // verus!
