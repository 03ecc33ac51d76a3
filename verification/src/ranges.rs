//! Merging selection-derived line spans into a minimal set of disjoint,
//! non-adjacent line ranges.

use crate::ext::{
    cut_ok, line_index_of, line_of_offset, regions_of, rope_len_of, selection_regions, Text,
};
use vstd::prelude::*;

verus! {

/// A half-open range of line indices: lines `start .. end`.
#[derive(Clone, Copy, PartialEq, Eq, Structural, Debug)]
pub struct LineRange {
    pub start: usize,
    pub end: usize,
}

/// The range holds at least one line.
pub open spec fn range_nonempty(r: LineRange) -> bool {
    r.start < r.end
}

/// Line `l` lies inside one of the ranges.
pub open spec fn covers(rs: Seq<LineRange>, l: int) -> bool {
    exists|i: int| 0 <= i < rs.len() && (#[trigger] rs[i]).start <= l < rs[i].end
}

/// The ranges are ordered by ascending start.
pub open spec fn sorted_by_start(rs: Seq<LineRange>) -> bool {
    forall|i: int, j: int| 0 <= i <= j < rs.len() ==> #[trigger] rs[i].start <= #[trigger] rs[j].start
}

/// Every range ends strictly before any later one begins: the ranges are
/// pairwise disjoint and not even adjacent.
pub open spec fn separated(rs: Seq<LineRange>) -> bool {
    forall|i: int, j: int| 0 <= i < j < rs.len() ==> #[trigger] rs[i].end < #[trigger] rs[j].start
}

/// Line `l` lies inside the accumulating range, if there is one.
pub open spec fn opt_covers(p: Option<LineRange>, l: int) -> bool {
    match p {
        None => false,
        Some(r) => r.start <= l < r.end,
    }
}

proof fn lemma_covers_push(s: Seq<LineRange>, x: LineRange, l: int)
    ensures
        covers(s.push(x), l) <==> (covers(s, l) || (x.start <= l < x.end)),
{
    if covers(s.push(x), l) {
        let i = choose|i: int| 0 <= i < s.push(x).len() && (#[trigger] s.push(x)[i]).start <= l < s.push(x)[i].end;
        if i < s.len() {
            assert(s[i] == s.push(x)[i]);
        } else {
            assert(s.push(x)[i] == x);
        }
    }
    if covers(s, l) {
        let i = choose|i: int| 0 <= i < s.len() && (#[trigger] s[i]).start <= l < s[i].end;
        assert(s.push(x)[i] == s[i]);
    }
    if x.start <= l < x.end {
        assert(s.push(x)[s.len() as int] == x);
    }
}

/// Merges a start-sorted sequence of non-empty line ranges into the minimal
/// ordered set of disjoint, non-adjacent ranges covering the same lines.
///
/// Overlapping or touching ranges (the next one starts at or before the end
/// of the accumulating one) are combined; a strictly later range flushes the
/// accumulated one to the output.
pub fn merge_line_ranges(ranges: &Vec<LineRange>) -> (out: Vec<LineRange>)
    requires
        forall|i: int| 0 <= i < ranges@.len() ==> range_nonempty(#[trigger] ranges@[i]),
        sorted_by_start(ranges@),
    ensures
        separated(out@),
        forall|i: int| 0 <= i < out@.len() ==> range_nonempty(#[trigger] out@[i]),
        forall|l: int| covers(out@, l) <==> covers(ranges@, l),
{
    let mut out: Vec<LineRange> = Vec::new();
    let mut prev: Option<LineRange> = None;
    let mut idx: usize = 0;
    while idx < ranges.len()
        invariant
            idx <= ranges@.len(),
            forall|i: int| 0 <= i < ranges@.len() ==> range_nonempty(#[trigger] ranges@[i]),
            sorted_by_start(ranges@),
            separated(out@),
            forall|i: int| 0 <= i < out@.len() ==> range_nonempty(#[trigger] out@[i]),
            prev is None ==> out@.len() == 0 && idx == 0,
            (match prev {
                None => true,
                Some(p) => {
                    &&& range_nonempty(p)
                    &&& forall|k: int| 0 <= k < out@.len() ==> (#[trigger] out@[k]).end < p.start
                    &&& forall|j: int|
                        idx <= j < ranges@.len() ==> p.start <= (#[trigger] ranges@[j]).start
                }
            }),
            forall|l: int| #![trigger covers(ranges@.take(idx as int), l)]
                (covers(out@, l) || opt_covers(prev, l)) <==> covers(
                    ranges@.take(idx as int),
                    l,
                ),
        decreases ranges@.len() - idx,
    {
        let r = ranges[idx];
        let ghost pre_out = out@;
        let ghost pre_prev = prev;
        proof {
            assert(ranges@.take(idx + 1) =~= ranges@.take(idx as int).push(ranges@[idx as int]));
        }
        match prev {
            None => {
                prev = Some(r);
                proof {
                    assert forall|l: int| #![trigger covers(ranges@.take(idx + 1), l)]
                        (covers(out@, l) || opt_covers(prev, l)) <==> covers(
                            ranges@.take(idx + 1),
                            l,
                        ) by {
                        assert((covers(pre_out, l) || opt_covers(pre_prev, l)) <==> covers(
                            ranges@.take(idx as int),
                            l,
                        ));
                        lemma_covers_push(ranges@.take(idx as int), r, l);
                    }
                }
            },
            Some(p) => {
                if r.start <= p.end {
                    let ns: usize = if p.start <= r.start {
                        p.start
                    } else {
                        r.start
                    };
                    let ne: usize = if p.end >= r.end {
                        p.end
                    } else {
                        r.end
                    };
                    prev = Some(LineRange { start: ns, end: ne });
                    proof {
                        assert(p.start <= r.start);
                        assert forall|l: int| #![trigger covers(ranges@.take(idx + 1), l)]
                            (covers(out@, l) || opt_covers(prev, l)) <==> covers(
                                ranges@.take(idx + 1),
                                l,
                            ) by {
                            assert((covers(pre_out, l) || opt_covers(pre_prev, l)) <==> covers(
                                ranges@.take(idx as int),
                                l,
                            ));
                            lemma_covers_push(ranges@.take(idx as int), r, l);
                            assert(opt_covers(prev, l) <==> ((p.start <= l < p.end) || (r.start
                                <= l < r.end)));
                        }
                    }
                } else {
                    out.push(p);
                    prev = Some(r);
                    proof {
                        assert forall|l: int| #![trigger covers(ranges@.take(idx + 1), l)]
                            (covers(out@, l) || opt_covers(prev, l)) <==> covers(
                                ranges@.take(idx + 1),
                                l,
                            ) by {
                            assert((covers(pre_out, l) || opt_covers(pre_prev, l)) <==> covers(
                                ranges@.take(idx as int),
                                l,
                            ));
                            lemma_covers_push(ranges@.take(idx as int), r, l);
                            lemma_covers_push(pre_out, p, l);
                        }
                    }
                }
            },
        }
        idx = idx + 1;
    }
    proof {
        assert(ranges@.take(ranges@.len() as int) =~= ranges@);
    }
    match prev {
        None => out,
        Some(p) => {
            let ghost old_out = out@;
            out.push(p);
            proof {
                assert forall|l: int| covers(out@, l) <==> covers(ranges@, l) by {
                    assert((covers(old_out, l) || opt_covers(Some(p), l)) <==> covers(
                        ranges@.take(idx as int),
                        l,
                    ));
                    lemma_covers_push(old_out, p, l);
                }
            }
            out
        },
    }
}

/// Separated sequences of nonempty ranges are canonical: two of them
/// covering exactly the same lines are equal. So the properties the merger
/// ensures pin its output completely, and any two runs over inputs covering
/// the same lines produce the same ranges.
pub proof fn lemma_separated_cover_unique(xs: Seq<LineRange>, ys: Seq<LineRange>)
    requires
        separated(xs),
        separated(ys),
        forall|i: int| 0 <= i < xs.len() ==> range_nonempty(#[trigger] xs[i]),
        forall|i: int| 0 <= i < ys.len() ==> range_nonempty(#[trigger] ys[i]),
        forall|l: int| covers(xs, l) <==> covers(ys, l),
    ensures
        xs =~= ys,
    decreases xs.len(),
{
    if xs.len() == 0 {
        if ys.len() > 0 {
            assert(ys[0].start <= ys[0].start < ys[0].end);
            assert(covers(ys, ys[0].start as int));
            assert(false);
        }
    } else if ys.len() == 0 {
        assert(xs[0].start <= xs[0].start < xs[0].end);
        assert(covers(xs, xs[0].start as int));
        assert(false);
    } else {
        let a = xs[0];
        let b = ys[0];
        if a.start < b.start {
            assert(a.start <= a.start < a.end);
            assert(covers(xs, a.start as int));
            let i = choose|i: int|
                0 <= i < ys.len() && (#[trigger] ys[i]).start <= a.start < ys[i].end;
            assert(i != 0);
            assert(ys[0].end < ys[i].start);
            assert(false);
        }
        if b.start < a.start {
            assert(b.start <= b.start < b.end);
            assert(covers(ys, b.start as int));
            let j = choose|j: int|
                0 <= j < xs.len() && (#[trigger] xs[j]).start <= b.start < xs[j].end;
            assert(j != 0);
            assert(xs[0].end < xs[j].start);
            assert(false);
        }
        if a.end < b.end {
            assert(b.start <= a.end < b.end);
            assert(covers(ys, a.end as int));
            let k = choose|k: int|
                0 <= k < xs.len() && (#[trigger] xs[k]).start <= a.end < xs[k].end;
            assert(k != 0);
            assert(xs[0].end < xs[k].start);
            assert(false);
        }
        if b.end < a.end {
            assert(a.start <= b.end < a.end);
            assert(covers(xs, b.end as int));
            let k = choose|k: int|
                0 <= k < ys.len() && (#[trigger] ys[k]).start <= b.end < ys[k].end;
            assert(k != 0);
            assert(ys[0].end < ys[k].start);
            assert(false);
        }
        let tx = xs.drop_first();
        let ty = ys.drop_first();
        assert forall|i: int, j: int| 0 <= i < j < tx.len() implies (#[trigger] tx[i]).end
            < (#[trigger] tx[j]).start by {
            assert(tx[i] == xs[i + 1]);
            assert(tx[j] == xs[j + 1]);
        }
        assert forall|i: int, j: int| 0 <= i < j < ty.len() implies (#[trigger] ty[i]).end
            < (#[trigger] ty[j]).start by {
            assert(ty[i] == ys[i + 1]);
            assert(ty[j] == ys[j + 1]);
        }
        assert forall|i: int| 0 <= i < tx.len() implies range_nonempty(#[trigger] tx[i]) by {
            assert(tx[i] == xs[i + 1]);
        }
        assert forall|i: int| 0 <= i < ty.len() implies range_nonempty(#[trigger] ty[i]) by {
            assert(ty[i] == ys[i + 1]);
        }
        assert forall|l: int| covers(tx, l) <==> covers(ty, l) by {
            if covers(tx, l) {
                let m = choose|m: int|
                    0 <= m < tx.len() && (#[trigger] tx[m]).start <= l < tx[m].end;
                assert(tx[m] == xs[m + 1]);
                assert(covers(xs, l));
                assert(a.end < xs[m + 1].start);
                let n = choose|n: int|
                    0 <= n < ys.len() && (#[trigger] ys[n]).start <= l < ys[n].end;
                assert(n != 0);
                assert(ty[n - 1] == ys[n]);
                assert(covers(ty, l));
            }
            if covers(ty, l) {
                let m = choose|m: int|
                    0 <= m < ty.len() && (#[trigger] ty[m]).start <= l < ty[m].end;
                assert(ty[m] == ys[m + 1]);
                assert(covers(ys, l));
                assert(b.end < ys[m + 1].start);
                let n = choose|n: int|
                    0 <= n < xs.len() && (#[trigger] xs[n]).start <= l < xs[n].end;
                assert(n != 0);
                assert(tx[n - 1] == xs[n]);
                assert(covers(tx, l));
            }
        }
        lemma_separated_cover_unique(tx, ty);
        assert forall|i: int| 0 <= i < xs.len() implies xs[i] == ys[i] by {
            if i > 0 {
                assert(tx[i - 1] == xs[i]);
                assert(ty[i - 1] == ys[i]);
            }
        }
    }
}

/// The index of the first line a selection region touches.
pub open spec fn region_line_start(t: Text, r: (usize, usize)) -> int {
    line_index_of(t, r.0) as int
}

/// One past the index of the last line a selection region touches.
pub open spec fn region_line_end(t: Text, r: (usize, usize)) -> int {
    line_index_of(t, r.1) + 1
}

/// Line `l` lies in the line span of one of the selection's regions.
pub open spec fn sel_covers(t: Text, rs: Seq<(usize, usize)>, l: int) -> bool {
    exists|i: int|
        0 <= i < rs.len() && region_line_start(t, #[trigger] rs[i]) <= l < region_line_end(
            t,
            rs[i],
        )
}

/// The set of line ranges that include a selection: each region's offsets are
/// turned into a half-open range of line indices, and overlapping or touching
/// ranges are combined, so a line holding several regions is reported once.
///
/// The regions' offsets must lie within the text, at positions the text can
/// be cut (never inside a multi-byte character); the length bound keeps the
/// end of the last line's range representable.
#[verifier::rlimit(60)]
pub fn lines_for_selection(text: &Text, sel: &xi_core_lib::selection::Selection) -> (out: Vec<
    LineRange,
>)
    requires
        forall|i: int|
            0 <= i < regions_of(*sel).len() ==> (#[trigger] regions_of(*sel)[i]).1 <= rope_len_of(
                *text,
            ),
        forall|i: int|
            0 <= i < regions_of(*sel).len() ==> cut_ok(*text, (#[trigger] regions_of(*sel)[i]).0)
                && cut_ok(*text, regions_of(*sel)[i].1),
        rope_len_of(*text) < usize::MAX,
    ensures
        separated(out@),
        forall|i: int| 0 <= i < out@.len() ==> range_nonempty(#[trigger] out@[i]),
        forall|l: int| covers(out@, l) <==> sel_covers(*text, regions_of(*sel), l),
{
    let regions = selection_regions(sel);
    let mut ranges: Vec<LineRange> = Vec::new();
    let mut i: usize = 0;
    while i < regions.len()
        invariant
            i <= regions@.len(),
            regions@ == regions_of(*sel),
            forall|k: int| 0 <= k < regions@.len() ==> (#[trigger] regions@[k]).0 <= regions@[k].1,
            forall|k: int|
                0 <= k + 1 < regions@.len() ==> (#[trigger] regions@[k]).1 <= regions@[k + 1].0,
            forall|k: int|
                0 <= k < regions@.len() ==> (#[trigger] regions@[k]).1 <= rope_len_of(*text),
            forall|k: int|
                0 <= k < regions@.len() ==> cut_ok(*text, (#[trigger] regions@[k]).0) && cut_ok(
                    *text,
                    regions@[k].1,
                ),
            rope_len_of(*text) < usize::MAX,
            ranges@.len() == i,
            forall|k: int|
                0 <= k < i ==> ((#[trigger] ranges@[k]).start as int) == region_line_start(
                    *text,
                    regions@[k],
                ) && (ranges@[k].end as int) == region_line_end(*text, regions@[k]),
            forall|k: int| 0 <= k < i ==> range_nonempty(#[trigger] ranges@[k]),
            sorted_by_start(ranges@),
        decreases regions@.len() - i,
    {
        let (lo, hi) = (regions[i].0, regions[i].1);
        let start = line_of_offset(text, lo);
        let end_line = line_of_offset(text, hi);
        let r = LineRange { start, end: end_line + 1 };
        proof {
            assert(line_index_of(*text, lo) <= end_line);
            if i > 0 {
                assert(regions@[i - 1].0 <= lo);
                assert(line_index_of(*text, regions@[i - 1].0) <= start);
            }
        }
        let ghost pre_ranges = ranges@;
        ranges.push(r);
        proof {
            assert forall|a: int, b2: int|
                0 <= a <= b2 < ranges@.len() implies (#[trigger] ranges@[a]).start
                <= (#[trigger] ranges@[b2]).start by {
                if b2 < pre_ranges.len() {
                    assert(ranges@[a] == pre_ranges[a]);
                    assert(ranges@[b2] == pre_ranges[b2]);
                } else if a < pre_ranges.len() {
                    assert(ranges@[a] == pre_ranges[a]);
                    assert(ranges@[b2] == r);
                    assert(pre_ranges[a].start <= pre_ranges[pre_ranges.len() - 1].start);
                    assert((pre_ranges[pre_ranges.len() - 1].start as int) == region_line_start(
                        *text,
                        regions@[pre_ranges.len() - 1],
                    ));
                }
            }
        }
        i = i + 1;
    }
    let out = merge_line_ranges(&ranges);
    proof {
        assert forall|l: int| covers(ranges@, l) <==> sel_covers(*text, regions_of(*sel), l) by {
            if covers(ranges@, l) {
                let k = choose|k: int|
                    0 <= k < ranges@.len() && (#[trigger] ranges@[k]).start <= l < ranges@[k].end;
                assert(region_line_start(*text, regions_of(*sel)[k]) <= l < region_line_end(
                    *text,
                    regions_of(*sel)[k],
                ));
            }
            if sel_covers(*text, regions_of(*sel), l) {
                let k = choose|k: int|
                    0 <= k < regions_of(*sel).len() && region_line_start(
                        *text,
                        #[trigger] regions_of(*sel)[k],
                    ) <= l < region_line_end(*text, regions_of(*sel)[k]);
                assert(ranges@[k].start <= l < ranges@[k].end);
            }
        }
    }
    out
}

} // verus!

