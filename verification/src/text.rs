//! Byte-level substring search and the string primitives the rest of the
//! crate builds on.

use vstd::prelude::*;
use vstd::utf8::decode_utf8;
use vstd::utf8::decode_utf8_split;
use vstd::utf8::encode_utf8;
use vstd::utf8::encode_utf8_decode_utf8;
use vstd::utf8::encode_utf8_first_scalar;
use vstd::utf8::encode_utf8_valid_utf8;
use vstd::utf8::is_char_boundary;
use vstd::utf8::is_char_boundary_iff_not_is_continuation_byte;
use vstd::utf8::length_of_first_scalar;
use vstd::utf8::pop_first_scalar;
use vstd::utf8::valid_utf8;
use vstd::utf8::valid_utf8_split;

verus! {

/// `pat` occurs in `hay` starting at index `at`.
pub open spec fn occurs_at<T>(hay: Seq<T>, pat: Seq<T>, at: int) -> bool {
    &&& 0 <= at
    &&& at + pat.len() <= hay.len()
    &&& hay.subrange(at, at + pat.len()) == pat
}

/// `pat` occurs somewhere in `hay`.
pub open spec fn occurs<T>(hay: Seq<T>, pat: Seq<T>) -> bool {
    exists|at: int| occurs_at(hay, pat, at)
}

/// `pat` does not occur in `hay` at any index in `lo..hi`.
pub open spec fn absent_between(hay: Seq<u8>, pat: Seq<u8>, lo: int, hi: int) -> bool {
    forall|k: int| lo <= k < hi ==> !occurs_at(hay, pat, k)
}

/// `at` is the first index at or after `start` where `pat` occurs in `hay`.
pub open spec fn first_occurrence(hay: Seq<u8>, pat: Seq<u8>, start: int, at: int) -> bool {
    &&& start <= at
    &&& occurs_at(hay, pat, at)
    &&& absent_between(hay, pat, start, at)
}

/// The first `n` bytes of `pat` agree with `hay` from `at` on.
pub open spec fn agrees_upto(hay: Seq<u8>, pat: Seq<u8>, at: int, n: int) -> bool {
    forall|k: int| 0 <= k < n ==> hay[at + k] == pat[k]
}

/// Tells whether `pat` occurs in `hay` at index `at`.
pub fn matches_at(hay: &[u8], pat: &[u8], at: usize) -> (r: bool)
    ensures
        r == occurs_at(hay@, pat@, at as int),
{
    if at > hay.len() || pat.len() > hay.len() - at {
        return false;
    }
    let mut k: usize = 0;
    while k < pat.len()
        invariant
            k <= pat.len(),
            at + pat.len() <= hay.len(),
            agrees_upto(hay@, pat@, at as int, k as int),
        decreases pat.len() - k,
    {
        if hay[at + k] != pat[k] {
            proof {
                let window = hay@.subrange(at as int, at + pat.len());
                assert(window[k as int] == hay@[at + k]);
            }
            return false;
        }
        k += 1;
    }
    assert(hay@.subrange(at as int, at + pat.len()) =~= pat@);
    true
}

/// Finds the first index at or after `start` where `pat` occurs in `hay`.
pub fn find_from(hay: &[u8], pat: &[u8], start: usize) -> (r: Option<usize>)
    ensures
        match r {
            Some(at) => first_occurrence(hay@, pat@, start as int, at as int),
            None => forall|k: int| start <= k ==> !occurs_at(hay@, pat@, k),
        },
{
    if start > hay.len() || pat.len() > hay.len() - start {
        return None;
    }
    let last: usize = hay.len() - pat.len();
    let mut at: usize = start;
    loop
        invariant
            start <= at <= last,
            last == hay.len() - pat.len(),
            absent_between(hay@, pat@, start as int, at as int),
        decreases last - at,
    {
        if matches_at(hay, pat, at) {
            return Some(at);
        }
        if at == last {
            return None;
        }
        at += 1;
    }
}

/// Tells whether `pat` occurs anywhere in `hay`.
pub fn contains_bytes(hay: &[u8], pat: &[u8]) -> (r: bool)
    ensures
        r == occurs(hay@, pat@),
{
    match find_from(hay, pat, 0) {
        Some(_) => true,
        None => false,
    }
}

/// The ranges a left-to-right scan of `hay` for `pat` finds from `pos` on.
///
/// A match at the cursor yields its half-open range and moves the cursor to
/// the end of the match, so matches never overlap; otherwise the cursor moves
/// on by one byte. An empty pattern yields no range.
pub open spec fn scan_from(hay: Seq<u8>, pat: Seq<u8>, pos: int) -> Seq<(int, int)>
    decreases hay.len() - pos,
{
    if pat.len() == 0 || pos < 0 || pos + pat.len() > hay.len() {
        Seq::empty()
    } else if occurs_at(hay, pat, pos) {
        seq![(pos, pos + pat.len())] + scan_from(hay, pat, pos + pat.len())
    } else {
        scan_from(hay, pat, pos + 1)
    }
}

/// The ranges of `ranges` as pairs of mathematical integers.
pub open spec fn ranges_of(ranges: Seq<(usize, usize)>) -> Seq<(int, int)> {
    ranges.map_values(|r: (usize, usize)| (r.0 as int, r.1 as int))
}

/// A scan may skip a stretch in which the pattern does not occur.
pub proof fn lemma_scan_skips_gap(hay: Seq<u8>, pat: Seq<u8>, pos: int, at: int)
    requires
        0 <= pos <= at,
        at + pat.len() <= hay.len(),
        absent_between(hay, pat, pos, at),
    ensures
        scan_from(hay, pat, pos) == scan_from(hay, pat, at),
    decreases at - pos,
{
    if pos < at && pat.len() > 0 {
        lemma_scan_skips_gap(hay, pat, pos + 1, at);
    }
}

/// A scan finds nothing where the pattern no longer occurs.
pub proof fn lemma_scan_of_absent(hay: Seq<u8>, pat: Seq<u8>, pos: int)
    requires
        forall|k: int| pos <= k ==> !occurs_at(hay, pat, k),
    ensures
        scan_from(hay, pat, pos) == Seq::<(int, int)>::empty(),
    decreases hay.len() - pos,
{
    if !(pat.len() == 0 || pos < 0 || pos + pat.len() > hay.len()) {
        lemma_scan_of_absent(hay, pat, pos + 1);
    }
}

/// Every range of a scan is an occurrence of the pattern, the ranges come in
/// ascending order without overlap, and between the cursor and the first
/// range, and between consecutive ranges, the pattern does not occur.
pub proof fn lemma_scan_ranges(hay: Seq<u8>, pat: Seq<u8>, pos: int)
    requires
        0 <= pos,
    ensures
        forall|k: int|
            0 <= k < scan_from(hay, pat, pos).len() ==> {
                let r = #[trigger] scan_from(hay, pat, pos)[k];
                let from = if k == 0 {
                    pos
                } else {
                    scan_from(hay, pat, pos)[k - 1].1
                };
                &&& first_occurrence(hay, pat, from, r.0)
                &&& r.1 == r.0 + pat.len()
                &&& r.0 < r.1 <= hay.len()
            },
    decreases hay.len() - pos,
{
    let all = scan_from(hay, pat, pos);
    if pat.len() == 0 || pos + pat.len() > hay.len() {
    } else if occurs_at(hay, pat, pos) {
        let rest = scan_from(hay, pat, pos + pat.len());
        lemma_scan_ranges(hay, pat, pos + pat.len());
        assert forall|k: int| 0 <= k < all.len() implies {
            let r = #[trigger] all[k];
            let from = if k == 0 {
                pos
            } else {
                all[k - 1].1
            };
            &&& first_occurrence(hay, pat, from, r.0)
            &&& r.1 == r.0 + pat.len()
            &&& r.0 < r.1 <= hay.len()
        } by {
            if k > 0 {
                assert(all[k] == rest[k - 1]);
                if k > 1 {
                    assert(all[k - 1] == rest[k - 2]);
                }
            }
        }
    } else {
        let rest = scan_from(hay, pat, pos + 1);
        lemma_scan_ranges(hay, pat, pos + 1);
        assert(all == rest);
        if rest.len() > 0 {
            assert(first_occurrence(hay, pat, pos + 1, rest[0].0));
            assert(first_occurrence(hay, pat, pos, rest[0].0));
        }
    }
}

/// A scan for a non-empty pattern finds a range exactly when the pattern
/// occurs at or after the cursor.
pub proof fn lemma_scan_finds_occurrences(hay: Seq<u8>, pat: Seq<u8>, pos: int)
    requires
        0 <= pos,
        pat.len() > 0,
    ensures
        scan_from(hay, pat, pos).len() > 0 <==> exists|k: int| pos <= k && occurs_at(hay, pat, k),
    decreases hay.len() - pos,
{
    if pos + pat.len() > hay.len() {
    } else if occurs_at(hay, pat, pos) {
    } else {
        lemma_scan_finds_occurrences(hay, pat, pos + 1);
        if exists|k: int| pos <= k && occurs_at(hay, pat, k) {
            let k = choose|k: int| pos <= k && occurs_at(hay, pat, k);
            assert(pos + 1 <= k && occurs_at(hay, pat, k));
        }
    }
}

/// The ranges come in ascending order from `from` on, none is empty, none
/// overlaps the one before it, and all lie within `len`.
pub open spec fn ascending_within(ranges: Seq<(int, int)>, from: int, len: int) -> bool {
    forall|k: int|
        0 <= k < ranges.len() ==> {
            let floor = if k == 0 {
                from
            } else {
                ranges[k - 1].1
            };
            floor <= (#[trigger] ranges[k]).0 < ranges[k].1 <= len
        }
}

/// The ranges of a scan are ascending, disjoint and within the haystack.
pub proof fn lemma_scan_ascends(hay: Seq<u8>, pat: Seq<u8>, pos: int)
    requires
        0 <= pos,
    ensures
        ascending_within(scan_from(hay, pat, pos), pos, hay.len() as int),
{
    lemma_scan_ranges(hay, pat, pos);
}

/// Scans `hay` for `pat` from the left and returns the ranges of the matches.
pub fn match_ranges(hay: &[u8], pat: &[u8]) -> (r: Vec<(usize, usize)>)
    ensures
        ranges_of(r@) == scan_from(hay@, pat@, 0),
{
    let mut out: Vec<(usize, usize)> = Vec::new();
    if pat.len() == 0 {
        assert(ranges_of(out@) =~= scan_from(hay@, pat@, 0));
        return out;
    }
    let mut pos: usize = 0;
    loop
        invariant
            pat.len() > 0,
            pos <= hay.len(),
            ranges_of(out@) + scan_from(hay@, pat@, pos as int) == scan_from(hay@, pat@, 0),
        decreases hay.len() - pos,
    {
        match find_from(hay, pat, pos) {
            None => {
                proof {
                    lemma_scan_of_absent(hay@, pat@, pos as int);
                    assert(ranges_of(out@) + Seq::<(int, int)>::empty() =~= ranges_of(out@));
                }
                return out;
            },
            Some(at) => {
                let end: usize = at + pat.len();
                proof {
                    lemma_scan_skips_gap(hay@, pat@, pos as int, at as int);
                    let ghost before = ranges_of(out@);
                    assert(before.push((at as int, end as int)) + scan_from(
                        hay@,
                        pat@,
                        end as int,
                    ) =~= before + scan_from(hay@, pat@, at as int));
                    assert(ranges_of(out@.push((at, end))) =~= before.push(
                        (at as int, end as int),
                    ));
                }
                out.push((at, end));
                pos = end;
            },
        }
    }
}

/// The lowercase form of a string, as `str::to_lowercase` computes it.
pub uninterp spec fn lowercase(s: Seq<char>) -> Seq<char>;

/// `str::to_lowercase` returns the lowercase form of its argument; the
/// mapping itself is left to the standard library and only given a name.
pub assume_specification[ str::to_lowercase ](s: &str) -> (r: String)
    ensures
        r@ == lowercase(s@),
;

/// `String::push` appends one character at the end.
pub assume_specification[ String::push ](s: &mut String, c: char)
    ensures
        final(s)@ == old(s)@.push(c),
;

/// `String::pop` removes the last character and returns it, or returns
/// `None` and leaves the string alone when it is empty.
pub assume_specification[ String::pop ](s: &mut String) -> (r: Option<char>)
    ensures
        old(s)@.len() == 0 ==> r.is_none() && final(s)@ == old(s)@,
        old(s)@.len() > 0 ==> r == Some(old(s)@.last()) && final(s)@ == old(s)@.drop_last(),
;

/// The UTF-8 bytes of the lowercase form of `s`.
pub open spec fn lower_bytes(s: Seq<char>) -> Seq<u8> {
    encode_utf8(lowercase(s))
}

/// The encoding of a concatenation is the concatenation of the encodings.
pub proof fn lemma_encode_concat(a: Seq<char>, b: Seq<char>)
    ensures
        encode_utf8(a + b) == encode_utf8(a) + encode_utf8(b),
    decreases a.len(),
{
    if a.len() == 0 {
        assert(a + b =~= b);
        assert(encode_utf8(a) + encode_utf8(b) =~= encode_utf8(b));
    } else {
        lemma_encode_concat(a.drop_first(), b);
        assert((a + b).drop_first() =~= a.drop_first() + b);
        assert((a + b)[0] == a[0]);
        assert(encode_utf8(a + b) =~= encode_utf8(a) + encode_utf8(b));
    }
}

/// Where one valid encoding begins another, it ends on a character
/// boundary of the other.
proof fn lemma_prefix_ends_on_boundary(whole: Seq<u8>, part: Seq<u8>)
    requires
        valid_utf8(whole),
        valid_utf8(part),
        occurs_at(whole, part, 0),
    ensures
        is_char_boundary(whole, part.len() as int),
    decreases part.len(),
{
    if part.len() > 0 {
        assert(whole.subrange(0, part.len() as int)[0] == whole[0]);
        let width = length_of_first_scalar(part);
        assert(width == length_of_first_scalar(whole));
        let whole_rest = pop_first_scalar(whole);
        let part_rest = pop_first_scalar(part);
        assert(whole_rest.subrange(0, part_rest.len() as int) =~= part_rest) by {
            assert forall|k: int| 0 <= k < part_rest.len() implies whole_rest[k] == part_rest[k] by {
                assert(whole.subrange(0, part.len() as int)[width + k] == whole[width + k]);
            }
        }
        lemma_prefix_ends_on_boundary(whole_rest, part_rest);
    }
}

/// Containment of strings is containment of their encodings: a sequence
/// of characters occurs in another exactly when its UTF-8 bytes occur in
/// the bytes of the other.
pub proof fn lemma_encoded_occurrence(hay: Seq<char>, pat: Seq<char>)
    ensures
        occurs(encode_utf8(hay), encode_utf8(pat)) <==> occurs(hay, pat),
{
    let hay_bytes = encode_utf8(hay);
    let pat_bytes = encode_utf8(pat);
    encode_utf8_valid_utf8(hay);
    encode_utf8_valid_utf8(pat);
    encode_utf8_decode_utf8(hay);
    encode_utf8_decode_utf8(pat);
    if occurs(hay, pat) {
        let at = choose|at: int| occurs_at(hay, pat, at);
        let before = hay.subrange(0, at);
        let after = hay.subrange(at + pat.len(), hay.len() as int);
        assert(hay =~= (before + pat) + after);
        lemma_encode_concat(before + pat, after);
        lemma_encode_concat(before, pat);
        let start = encode_utf8(before).len() as int;
        assert(hay_bytes.subrange(start, start + pat_bytes.len()) =~= pat_bytes);
        assert(occurs_at(hay_bytes, pat_bytes, start));
    }
    if occurs(hay_bytes, pat_bytes) {
        if pat.len() == 0 {
            assert(hay.subrange(0, 0) =~= pat);
            assert(occurs_at(hay, pat, 0));
        } else {
            let start = choose|start: int| occurs_at(hay_bytes, pat_bytes, start);
            let end = start + pat_bytes.len();
            encode_utf8_first_scalar(pat);
            assert(pat_bytes.len() > 0);
            assert(hay_bytes.subrange(start, end)[0] == hay_bytes[start]);
            is_char_boundary_iff_not_is_continuation_byte(pat_bytes, 0);
            is_char_boundary_iff_not_is_continuation_byte(hay_bytes, start);
            assert(is_char_boundary(hay_bytes, start));
            valid_utf8_split(hay_bytes, start);
            decode_utf8_split(hay_bytes, start);
            let head = hay_bytes.subrange(0, start);
            let tail = hay_bytes.subrange(start, hay_bytes.len() as int);
            assert(tail.subrange(0, pat_bytes.len() as int) =~= pat_bytes);
            lemma_prefix_ends_on_boundary(tail, pat_bytes);
            decode_utf8_split(tail, pat_bytes.len() as int);
            let before = decode_utf8(head);
            let after = decode_utf8(tail.subrange(pat_bytes.len() as int, tail.len() as int));
            assert(hay =~= before + (pat + after));
            assert(hay.subrange(before.len() as int, (before.len() + pat.len()) as int) =~= pat);
            assert(occurs_at(hay, pat, before.len() as int));
        }
    }
}

} // verus!
