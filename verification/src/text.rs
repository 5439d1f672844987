//! Byte-string primitives shared by the parser and the engine: substring
//! occurrence, the leftmost non-overlapping occurrence scan, and span
//! replacement.  The interpreter works on plain bytes; offsets and lengths
//! are byte counts.

use vstd::prelude::*;

verus! {

/// The line-break byte; program sources are split on it.
pub const NEWLINE: u8 = 10;

/// `p` occurs in `s` starting at byte offset `i`.
pub open spec fn is_match_at(s: Seq<u8>, p: Seq<u8>, i: int) -> bool {
    0 <= i && i + p.len() <= s.len() && s.subrange(i, i + p.len() as int) == p
}

/// `p` occurs somewhere in `s`.
pub open spec fn occurs(s: Seq<u8>, p: Seq<u8>) -> bool {
    exists|i: int| is_match_at(s, p, i)
}

/// The offsets a leftmost, non-overlapping scan for `p` finds in `s`, looking
/// at position `i` and onwards: after a hit the scan resumes past the whole
/// occurrence, so overlapping occurrences are not counted separately.
pub open spec fn scan_offsets_from(s: Seq<u8>, p: Seq<u8>, i: int) -> Seq<int>
    decreases s.len() - i when 0 <= i && p.len() > 0
{
    if i + p.len() > s.len() {
        Seq::empty()
    } else if is_match_at(s, p, i) {
        seq![i] + scan_offsets_from(s, p, i + p.len() as int)
    } else {
        scan_offsets_from(s, p, i + 1)
    }
}

/// All offsets the non-overlapping scan finds in `s`.
pub open spec fn scan_offsets(s: Seq<u8>, p: Seq<u8>) -> Seq<int> {
    scan_offsets_from(s, p, 0)
}

/// A sequence of byte offsets, as the mathematical integers it denotes.
pub open spec fn offsets_view(s: Seq<usize>) -> Seq<int> {
    s.map_values(|o: usize| o as int)
}

proof fn lemma_scan_offsets_from(s: Seq<u8>, p: Seq<u8>, i: int)
    requires
        0 <= i,
        p.len() > 0,
    ensures
        forall|k: int|
            0 <= k < scan_offsets_from(s, p, i).len() ==> i <= #[trigger] scan_offsets_from(
                s,
                p,
                i,
            )[k] && is_match_at(s, p, scan_offsets_from(s, p, i)[k]),
        scan_offsets_from(s, p, i).len() == 0 ==> forall|j: int|
            i <= j ==> !is_match_at(s, p, j),
    decreases s.len() - i,
{
    if i + p.len() > s.len() {
    } else if is_match_at(s, p, i) {
        lemma_scan_offsets_from(s, p, i + p.len() as int);
    } else {
        lemma_scan_offsets_from(s, p, i + 1);
    }
}

/// Every offset the scan reports is an exact occurrence of `p`, and the scan
/// reports none exactly when `p` occurs nowhere in `s`.
pub proof fn lemma_scan_offsets(s: Seq<u8>, p: Seq<u8>)
    requires
        p.len() > 0,
    ensures
        forall|k: int|
            0 <= k < scan_offsets(s, p).len() ==> is_match_at(
                s,
                p,
                #[trigger] scan_offsets(s, p)[k],
            ),
        scan_offsets(s, p).len() == 0 <==> !occurs(s, p),
{
    lemma_scan_offsets_from(s, p, 0);
    if scan_offsets(s, p).len() > 0 {
        assert(is_match_at(s, p, scan_offsets(s, p)[0]));
    }
}

/// The result of replacing the span `[i, i + plen)` of `s` with `r`.
pub open spec fn splice(s: Seq<u8>, i: int, plen: int, r: Seq<u8>) -> Seq<u8> {
    s.subrange(0, i) + r + s.subrange(i + plen, s.len() as int)
}

/// A fresh copy of `b`.
pub fn copy_bytes(b: &Vec<u8>) -> (r: Vec<u8>)
    ensures
        r@ == b@,
{
    let mut out: Vec<u8> = Vec::new();
    let mut k: usize = 0;
    while k < b.len()
        invariant
            k <= b@.len(),
            out@ == b@.subrange(0, k as int),
        decreases b@.len() - k,
    {
        out.push(b[k]);
        proof {
            assert(out@ =~= b@.subrange(0, k + 1));
        }
        k += 1;
    }
    proof {
        assert(b@.subrange(0, b@.len() as int) =~= b@);
    }
    out
}

/// The bytes of `s` in `[from, to)`, as a fresh vector.
pub fn sub_bytes(s: &Vec<u8>, from: usize, to: usize) -> (r: Vec<u8>)
    requires
        from <= to,
        to <= s@.len(),
    ensures
        r@ == s@.subrange(from as int, to as int),
{
    let mut out: Vec<u8> = Vec::new();
    let mut k: usize = from;
    while k < to
        invariant
            from <= k <= to,
            to <= s@.len(),
            out@ == s@.subrange(from as int, k as int),
        decreases to - k,
    {
        out.push(s[k]);
        proof {
            assert(out@ =~= s@.subrange(from as int, k + 1));
        }
        k += 1;
    }
    out
}

/// Whether `p` occurs in `s` at offset `i`, comparing the span byte by byte.
fn eq_at(s: &Vec<u8>, p: &Vec<u8>, i: usize) -> (b: bool)
    requires
        i + p@.len() <= s@.len(),
    ensures
        b == is_match_at(s@, p@, i as int),
{
    let n = s.len();
    let mut k: usize = 0;
    while k < p.len()
        invariant
            i + p@.len() <= s@.len(),
            s@.len() <= usize::MAX,
            k <= p@.len(),
            forall|j: int| 0 <= j < k ==> s@[i + j] == p@[j],
        decreases p@.len() - k,
    {
        if s[i + k] != p[k] {
            proof {
                assert(s@.subrange(i as int, i + p@.len() as int)[k as int] == s@[i + k]);
            }
            return false;
        }
        k += 1;
    }
    proof {
        assert(s@.subrange(i as int, i + p@.len() as int) =~= p@);
    }
    true
}

/// The offsets of the leftmost non-overlapping occurrences of `p` in `s`.
pub fn match_offsets(s: &Vec<u8>, p: &Vec<u8>) -> (offs: Vec<usize>)
    requires
        p@.len() > 0,
    ensures
        offsets_view(offs@) == scan_offsets(s@, p@),
{
    let mut offs: Vec<usize> = Vec::new();
    if p.len() > s.len() {
        proof {
            assert(offsets_view(offs@) =~= scan_offsets(s@, p@));
        }
        return offs;
    }
    let mut i: usize = 0;
    proof {
        assert(offsets_view(offs@) + scan_offsets_from(s@, p@, 0) =~= scan_offsets(s@, p@));
    }
    while i <= s.len() - p.len()
        invariant
            p@.len() > 0,
            p@.len() <= s@.len(),
            i <= s@.len(),
            offsets_view(offs@) + scan_offsets_from(s@, p@, i as int) == scan_offsets(s@, p@),
        decreases s@.len() - i,
    {
        if eq_at(s, p, i) {
            let ghost offs0 = offs@;
            offs.push(i);
            proof {
                assert(offsets_view(offs@) =~= offsets_view(offs0).push(i as int));
                assert(scan_offsets_from(s@, p@, i as int) == seq![i as int]
                    + scan_offsets_from(s@, p@, i + p@.len() as int));
                assert(offsets_view(offs@) + scan_offsets_from(s@, p@, i + p@.len() as int)
                    =~= offsets_view(offs0) + scan_offsets_from(s@, p@, i as int));
            }
            i += p.len();
        } else {
            proof {
                assert(scan_offsets_from(s@, p@, i as int) == scan_offsets_from(
                    s@,
                    p@,
                    i + 1,
                ));
            }
            i += 1;
        }
    }
    proof {
        assert(scan_offsets_from(s@, p@, i as int) =~= Seq::<int>::empty());
        assert(offsets_view(offs@) + Seq::<int>::empty() =~= offsets_view(offs@));
    }
    offs
}

/// Replaces the span `[i, i + plen)` of `s` with `r`, returning the new state.
pub fn splice_bytes(s: &Vec<u8>, i: usize, plen: usize, r: &Vec<u8>) -> (out: Vec<u8>)
    requires
        i + plen <= s@.len(),
    ensures
        out@ == splice(s@, i as int, plen as int, r@),
{
    let n = s.len();
    let mut out: Vec<u8> = sub_bytes(s, 0, i);
    proof {
        assert(out@ =~= s@.subrange(0, i as int) + r@.subrange(0, 0));
    }
    let mut k: usize = 0;
    while k < r.len()
        invariant
            i + plen <= s@.len(),
            k <= r@.len(),
            out@ == s@.subrange(0, i as int) + r@.subrange(0, k as int),
        decreases r@.len() - k,
    {
        out.push(r[k]);
        proof {
            assert(out@ =~= s@.subrange(0, i as int) + r@.subrange(0, k + 1));
        }
        k += 1;
    }
    proof {
        assert(r@.subrange(0, r@.len() as int) =~= r@);
        assert(out@ =~= s@.subrange(0, i as int) + r@ + s@.subrange(
            (i + plen) as int,
            (i + plen) as int,
        ));
    }
    let mut k2: usize = i + plen;
    while k2 < s.len()
        invariant
            i + plen <= k2 <= s@.len(),
            out@ == s@.subrange(0, i as int) + r@ + s@.subrange((i + plen) as int, k2 as int),
        decreases s@.len() - k2,
    {
        out.push(s[k2]);
        proof {
            assert(out@ =~= s@.subrange(0, i as int) + r@ + s@.subrange(
                (i + plen) as int,
                k2 + 1,
            ));
        }
        k2 += 1;
    }
    proof {
        assert(out@ =~= splice(s@, i as int, plen as int, r@));
    }
    out
}

} // verus!
