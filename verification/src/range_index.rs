//! The downloaded-range index: a set of disjoint, maximally-coalesced
//! half-open intervals over `u64` offsets, recording which bytes of the
//! remote resource have been written to the backing store.
//!
//! The index itself is `rangemap::RangeSet`; its contents are modelled as the
//! set of offsets covered by some stored interval, and every operation the
//! library needs goes through a wrapper whose contract speaks of that set.
use vstd::prelude::*;

verus! {

/// Relies on `rangemap::RangeSet`: a set stored as disjoint half-open
/// ranges, coalesced on insert.
#[verifier::external_type_specification]
#[verifier::external_body]
#[verifier::reject_recursive_types(T)]
pub struct ExRangeSet<T>(rangemap::RangeSet<T>);

/// The set of offsets covered by some interval stored in `s`.
pub uninterp spec fn range_set_points(s: rangemap::RangeSet<u64>) -> Set<u64>;

/// The offsets lying in the half-open interval `[lo, hi)`.
pub open spec fn seg(lo: u64, hi: u64) -> Set<u64> {
    Set::new(|p: u64| lo <= p < hi)
}

/// Relies on `rangemap::RangeSet::new`: it makes an empty set.
#[verifier::external_body]
pub fn range_set_new() -> (s: rangemap::RangeSet<u64>)
    ensures
        range_set_points(s) == Set::<u64>::empty(),
{
    rangemap::RangeSet::new()
}

/// Relies on `rangemap::RangeSet::insert`: it adds `lo..hi` to the covered
/// offsets, coalescing with overlapping or adjacent stored intervals. It
/// panics on an empty range, which the precondition rules out.
#[verifier::external_body]
pub fn range_set_insert(s: &mut rangemap::RangeSet<u64>, lo: u64, hi: u64)
    requires
        lo < hi,
    ensures
        range_set_points(*final(s)) == range_set_points(*old(s)).union(seg(lo, hi)),
{
    s.insert(lo..hi)
}

/// Relies on `rangemap::RangeSet::get`: it returns the bounds of the stored
/// interval covering `p`, if any. A stored interval covers exactly its
/// points, and is maximal, because `insert` coalesces any overlapping or
/// adjacent intervals.
#[verifier::external_body]
pub fn range_set_get(s: &rangemap::RangeSet<u64>, p: u64) -> (r: Option<(u64, u64)>)
    ensures
        match r {
            Some(b) => {
                &&& b.0 <= p < b.1
                &&& forall|q: u64| b.0 <= q < b.1 ==> range_set_points(*s).contains(q)
                &&& !range_set_points(*s).contains(b.1)
                &&& b.0 > 0 ==> !range_set_points(*s).contains((b.0 - 1) as u64)
            },
            None => !range_set_points(*s).contains(p),
        },
{
    s.get(&p).map(|r| (r.start, r.end))
}

/// `pos` lies in a stored interval `[a, b)` of a coalesced range set whose
/// head satisfies `a <= head <= b` — the head sits inside the interval or
/// exactly at its upper bound, where the interval is still being extended.
/// Over the covered offsets: `pos` is covered, and so is everything from
/// `pos` up to (excluding) a head above it, or from a head below it up to
/// `pos` inclusive.
pub open spec fn covered_with(pts: Set<u64>, pos: u64, head: u64) -> bool {
    &&& pts.contains(pos)
    &&& forall|q: u64| pos <= q < head ==> pts.contains(q)
    &&& forall|q: u64| head <= q <= pos ==> pts.contains(q)
}

/// Whether `pos` lies in a stored interval that the write head is inside of
/// or at the upper bound of.
///
/// The downloader restarts its stream exactly when this is false: the
/// current forward download then neither holds `pos` already nor is about to
/// extend past it.
pub fn covers_with_head(s: &rangemap::RangeSet<u64>, pos: u64, head: u64) -> (r: bool)
    ensures
        r == covered_with(range_set_points(*s), pos, head),
{
    let ghost pts = range_set_points(*s);
    match range_set_get(s, pos) {
        Some(bounds) => {
            let r = bounds.0 <= head && head <= bounds.1;
            proof {
                if r {
                    assert forall|q: u64| pos <= q < head implies pts.contains(q) by {
                        assert(bounds.0 <= q < bounds.1);
                    }
                    assert forall|q: u64| head <= q <= pos implies pts.contains(q) by {
                        assert(bounds.0 <= q < bounds.1);
                    }
                } else {
                    // `head` lies beyond the maximal interval covering `pos`,
                    // so an uncovered offset separates them.
                    if covered_with(pts, pos, head) {
                        if head > bounds.1 {
                            assert(pos <= bounds.1 < head);
                            assert(pts.contains(bounds.1));
                        } else {
                            assert(head < bounds.0);
                            assert(bounds.0 > 0);
                            assert(head <= (bounds.0 - 1) as u64 <= pos);
                            assert(pts.contains((bounds.0 - 1) as u64));
                        }
                    }
                }
            }
            r
        },
        None => {
            assert(!covered_with(pts, pos, head));
            false
        },
    }
}

/// The number of contiguously covered offsets starting at `p`, capped at `n`:
/// the largest `k <= n` with every offset in `[p, p + k)` covered.
pub fn available_from(s: &rangemap::RangeSet<u64>, p: u64, n: usize) -> (k: usize)
    ensures
        k <= n,
        p + k <= u64::MAX + 1,
        forall|q: u64| p <= q < p + k ==> range_set_points(*s).contains(q),
        k < n ==> p + k <= u64::MAX && !range_set_points(*s).contains((p + k) as u64),
        range_set_points(*s).contains(p) && n > 0 ==> k > 0,
{
    match range_set_get(s, p) {
        Some(bounds) => {
            let avail: u64 = bounds.1 - p;
            if avail >= n as u64 {
                n
            } else {
                let k = avail as usize;
                assert(p + k == bounds.1);
                k
            }
        },
        None => 0,
    }
}

} // verus!
