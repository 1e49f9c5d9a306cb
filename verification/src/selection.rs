//! Sets of selected bytes: merging ranges, and the bytes they hold.

use vstd::prelude::*;

use crate::geometry;
use crate::geometry::smaller;
use crate::model::Selection;

verus! {

/// Whether some range holds the offset.
pub open spec fn covered(ranges: Seq<Selection>, offset: int) -> bool {
    exists|i: int| 0 <= i < ranges.len() && (#[trigger] ranges[i]).covers(offset)
}

/// Whether ranges run forwards, stand in order, and leave a gap between one and the next.
pub open spec fn canonical(ranges: Seq<Selection>) -> bool {
    &&& forall|i: int| 0 <= i < ranges.len() ==> (#[trigger] ranges[i]).anchor <= ranges[i].cursor
    &&& forall|i: int, j: int|
        #![trigger ranges[i], ranges[j]]
        0 <= i < j < ranges.len() ==> ranges[i].cursor + 1 < ranges[j].anchor
}

/// Whether two lists of ranges hold the same offsets.
pub open spec fn same_offsets(left: Seq<Selection>, right: Seq<Selection>) -> bool {
    forall|offset: int| #[trigger] covered(left, offset) == covered(right, offset)
}

/// The ranges that hold the same offsets as `ranges`, each as long as it can be, in order.
pub open spec fn merged(ranges: Seq<Selection>) -> Seq<Selection> {
    choose|m: Seq<Selection>| canonical(m) && same_offsets(m, ranges)
}

/// Two lists of separate, ordered ranges that hold the same offsets are the same list.
pub proof fn canonical_ranges_are_unique(left: Seq<Selection>, right: Seq<Selection>)
    requires
        canonical(left),
        canonical(right),
        same_offsets(left, right),
    ensures
        left == right,
    decreases left.len(),
{
    if left.len() == 0 {
        if right.len() > 0 {
            assert(right[0].covers(right[0].anchor as int));
            assert(covered(right, right[0].anchor as int));
            assert(covered(left, right[0].anchor as int));
        }
        assert(left =~= right);
    } else {
        let l = left.last();
        assert(left[left.len() - 1].covers(l.cursor as int));
        assert(covered(left, l.cursor as int));
        assert(covered(right, l.cursor as int));
        assert(right.len() > 0);
        let r = right.last();
        assert(right[right.len() - 1].covers(r.cursor as int));
        assert(covered(right, r.cursor as int));
        lemma_last_holds_the_largest(left, r.cursor as int);
        lemma_last_holds_the_largest(right, l.cursor as int);
        assert(l.cursor == r.cursor);
        lemma_last_start(left, right);
        lemma_last_start(right, left);
        assert(l == r);
        assert(canonical(left.drop_last()));
        assert(canonical(right.drop_last()));
        assert forall|offset: int| #[trigger] covered(left.drop_last(), offset) == covered(
            right.drop_last(),
            offset,
        ) by {
            lemma_drop_last_covers(left, offset);
            lemma_drop_last_covers(right, offset);
            assert(covered(left, offset) == covered(right, offset));
        }
        canonical_ranges_are_unique(left.drop_last(), right.drop_last());
        assert(left =~= left.drop_last().push(l));
        assert(right =~= right.drop_last().push(r));
    }
}

proof fn lemma_last_holds_the_largest(ranges: Seq<Selection>, offset: int)
    requires
        canonical(ranges),
        ranges.len() > 0,
        covered(ranges, offset),
    ensures
        offset <= ranges.last().cursor,
{
    let i = choose|i: int| 0 <= i < ranges.len() && (#[trigger] ranges[i]).covers(offset);
    if i < ranges.len() - 1 {
        assert(ranges[i].cursor + 1 < ranges[ranges.len() - 1].anchor);
        assert(ranges[ranges.len() - 1].anchor <= ranges[ranges.len() - 1].cursor);
    }
}

proof fn lemma_last_start(left: Seq<Selection>, right: Seq<Selection>)
    requires
        canonical(left),
        canonical(right),
        same_offsets(left, right),
        left.len() > 0,
        right.len() > 0,
        left.last().cursor == right.last().cursor,
    ensures
        left.last().anchor >= right.last().anchor,
{
    let l = left[left.len() - 1];
    let r = right[right.len() - 1];
    if l.anchor < r.anchor {
        let gap = r.anchor - 1;
        assert(l.covers(gap));
        assert(covered(left, gap));
        assert(covered(right, gap));
        let j = choose|j: int| 0 <= j < right.len() && (#[trigger] right[j]).covers(gap);
        if j < right.len() - 1 {
            assert(right[j].cursor + 1 < right[right.len() - 1].anchor);
        }
        assert(false);
    }
}

proof fn lemma_drop_last_covers(ranges: Seq<Selection>, offset: int)
    requires
        canonical(ranges),
        ranges.len() > 0,
    ensures
        covered(ranges.drop_last(), offset) == (covered(ranges, offset) && !ranges.last().covers(
            offset,
        )),
{
    let rest = ranges.drop_last();
    let last = ranges[ranges.len() - 1];
    if covered(rest, offset) {
        let i = choose|i: int| 0 <= i < rest.len() && (#[trigger] rest[i]).covers(offset);
        assert(ranges[i].covers(offset));
        assert(ranges[i].cursor + 1 < last.anchor);
    }
    if covered(ranges, offset) && !last.covers(offset) {
        let i = choose|i: int| 0 <= i < ranges.len() && (#[trigger] ranges[i]).covers(offset);
        assert(rest[i].covers(offset));
    }
}

/// Adds a range to separate, ordered ranges.
fn add_range(ranges: &Vec<Selection>, range: Selection) -> (out: Vec<Selection>)
    requires
        canonical(ranges@),
    ensures
        canonical(out@),
        forall|offset: int| #[trigger]
            covered(out@, offset) == (covered(ranges@, offset) || range.covers(offset)),
{
    let mut out: Vec<Selection> = Vec::new();
    let mut low: usize = range.start();
    let mut high: usize = range.end();
    let mut i: usize = 0;
    while i < ranges.len() && ranges[i].cursor < low && low - ranges[i].cursor > 1
        invariant
            0 <= i <= ranges.len(),
            canonical(ranges@),
            out@ == ranges@.take(i as int),
            forall|j: int| 0 <= j < i ==> (#[trigger] ranges[j]).cursor + 1 < low,
        ensures
            0 <= i <= ranges.len(),
            out@ == ranges@.take(i as int),
            forall|j: int| 0 <= j < i ==> (#[trigger] ranges[j]).cursor + 1 < low,
            i < ranges.len() ==> ranges[i as int].cursor + 1 >= low,
        decreases ranges.len() - i,
    {
        out.push(ranges[i]);
        i = i + 1;
        assert(out@ =~= ranges@.take(i as int));
    }
    let ghost first = i as int;
    while i < ranges.len() && (ranges[i].anchor <= high || ranges[i].anchor - high <= 1)
        invariant
            0 <= first <= i <= ranges.len(),
            canonical(ranges@),
            out@ == ranges@.take(first),
            low <= high,
            low <= range.low(),
            range.high() <= high,
            forall|j: int| 0 <= j < first ==> (#[trigger] ranges[j]).cursor + 1 < low,
            i < ranges.len() ==> ranges[i as int].cursor + 1 >= low,
            forall|offset: int|
                (low <= offset <= high) == (range.covers(offset) || #[trigger] covered(
                    ranges@.subrange(first, i as int),
                    offset,
                )),
        ensures
            0 <= first <= i <= ranges.len(),
            low <= high,
            forall|j: int| 0 <= j < first ==> (#[trigger] ranges[j]).cursor + 1 < low,
            forall|offset: int|
                (low <= offset <= high) == (range.covers(offset) || #[trigger] covered(
                    ranges@.subrange(first, i as int),
                    offset,
                )),
            i < ranges.len() ==> high + 1 < ranges[i as int].anchor,
        decreases ranges.len() - i,
    {
        let next = ranges[i];
        let ghost part = ranges@.subrange(first, i as int);
        let ghost more = ranges@.subrange(first, i + 1);
        let ghost (was_low, was_high) = (low, high);
        if next.anchor < low {
            low = next.anchor;
        }
        if next.cursor > high {
            high = next.cursor;
        }
        proof {
            assert(more =~= part.push(next));
            assert forall|offset: int|
                (low <= offset <= high) == (range.covers(offset) || #[trigger] covered(
                    more,
                    offset,
                )) by {
                assert((was_low <= offset <= was_high) == (range.covers(offset) || covered(
                    part,
                    offset,
                )));
                lemma_push_covers(part, next, offset);
            }
            assert forall|j: int| 0 <= j < first implies (#[trigger] ranges[j]).cursor + 1
                < low by {
                assert(ranges[j].cursor + 1 < ranges[i as int].anchor);
            }
            if i + 1 < ranges.len() {
                assert(ranges[i as int].cursor + 1 < ranges[i + 1].anchor);
                assert(ranges[i + 1].anchor <= ranges[i + 1].cursor);
            }
        }
        i = i + 1;
    }
    let ghost last = i as int;
    out.push(Selection { anchor: low, cursor: high });
    while i < ranges.len()
        invariant
            0 <= first <= last <= i <= ranges.len(),
            out@ == ranges@.take(first).push(Selection { anchor: low, cursor: high })
                + ranges@.subrange(last, i as int),
        decreases ranges.len() - i,
    {
        out.push(ranges[i]);
        i = i + 1;
        assert(out@ =~= ranges@.take(first).push(Selection { anchor: low, cursor: high })
            + ranges@.subrange(last, i as int));
    }
    proof {
        let middle = Selection { anchor: low, cursor: high };
        let part = ranges@.subrange(first, last);
        assert(out@ =~= ranges@.take(first) + seq![middle] + ranges@.skip(last));
        let shift = last - first - 1;
        assert forall|x: int| 0 <= x < out@.len() implies (#[trigger] out@[x]) == if x < first {
            ranges@[x]
        } else if x == first {
            middle
        } else {
            ranges@[x + shift]
        } by {}
        assert forall|x: int, y: int|
            #![trigger out@[x], out@[y]]
            0 <= x < y < out@.len() implies out@[x].cursor + 1 < out@[y].anchor by {
            if x == first {
                if y + shift > last {
                    assert(ranges@[last].cursor + 1 < ranges@[y + shift].anchor);
                    assert(ranges@[last].anchor <= ranges@[last].cursor);
                }
            } else if y == first {
                assert(ranges@[x].cursor + 1 < low);
            } else {
                let a = if x < first {
                    x
                } else {
                    x + shift
                };
                let b = if y < first {
                    y
                } else {
                    y + shift
                };
                assert(out@[x] == ranges@[a]);
                assert(out@[y] == ranges@[b]);
                assert(a < b);
            }
        }
        assert forall|offset: int| #[trigger]
            covered(out@, offset) == (covered(ranges@, offset) || range.covers(offset)) by {
            assert((low <= offset <= high) == (range.covers(offset) || covered(part, offset)));
            if covered(out@, offset) {
                let x = choose|x: int| 0 <= x < out@.len() && (#[trigger] out@[x]).covers(offset);
                if x == first {
                    if covered(part, offset) {
                        let k = choose|k: int|
                            0 <= k < part.len() && (#[trigger] part[k]).covers(offset);
                        assert(ranges@[k + first].covers(offset));
                    }
                } else if x < first {
                    assert(ranges@[x].covers(offset));
                } else {
                    assert(ranges@[x + shift].covers(offset));
                }
            }
            if range.covers(offset) {
                assert(middle.covers(offset));
                assert(out@[first].covers(offset));
            }
            if covered(ranges@, offset) {
                let k = choose|k: int|
                    0 <= k < ranges@.len() && (#[trigger] ranges@[k]).covers(offset);
                if k < first {
                    assert(out@[k].covers(offset));
                } else if k < last {
                    assert(part[k - first].covers(offset));
                    assert(covered(part, offset));
                    assert(out@[first].covers(offset));
                } else {
                    assert(out@[k - shift].covers(offset));
                }
            }
        }
    }
    out
}

proof fn lemma_push_covers(ranges: Seq<Selection>, range: Selection, offset: int)
    ensures
        covered(ranges.push(range), offset) == (covered(ranges, offset) || range.covers(offset)),
{
    let more = ranges.push(range);
    if covered(ranges, offset) {
        let i = choose|i: int| 0 <= i < ranges.len() && (#[trigger] ranges[i]).covers(offset);
        assert(more[i].covers(offset));
    }
    if range.covers(offset) {
        assert(more[ranges.len() as int].covers(offset));
    }
    if covered(more, offset) {
        let i = choose|i: int| 0 <= i < more.len() && (#[trigger] more[i]).covers(offset);
        if i < ranges.len() {
            assert(ranges[i].covers(offset));
        }
    }
}

/// Merges ranges that touch or overlap, and puts them in order.
pub fn merge_ranges(ranges: &Vec<Selection>) -> (out: Vec<Selection>)
    ensures
        out@ == merged(ranges@),
        canonical(out@),
        same_offsets(out@, ranges@),
{
    let mut out: Vec<Selection> = Vec::new();
    let mut i: usize = 0;
    while i < ranges.len()
        invariant
            0 <= i <= ranges.len(),
            canonical(out@),
            same_offsets(out@, ranges@.take(i as int)),
        decreases ranges.len() - i,
    {
        let next = add_range(&out, ranges[i]);
        proof {
            assert(ranges@.take(i + 1) =~= ranges@.take(i as int).push(ranges@[i as int]));
            assert forall|offset: int| #[trigger]
                covered(next@, offset) == covered(ranges@.take(i + 1), offset) by {
                lemma_push_covers(ranges@.take(i as int), ranges@[i as int], offset);
                assert(covered(out@, offset) == covered(ranges@.take(i as int), offset));
            }
        }
        out = next;
        i = i + 1;
    }
    proof {
        assert(ranges@.take(i as int) =~= ranges@);
        lemma_merged(ranges@, out@);
    }
    out
}

/// The merged ranges are the ones list that is separate, ordered, and holds the same offsets.
proof fn lemma_merged(ranges: Seq<Selection>, m: Seq<Selection>)
    requires
        canonical(m),
        same_offsets(m, ranges),
    ensures
        merged(ranges) == m,
{
    let other = merged(ranges);
    assert(canonical(other) && same_offsets(other, ranges));
    assert forall|offset: int| #[trigger] covered(other, offset) == covered(m, offset) by {
        assert(covered(m, offset) == covered(ranges, offset));
    }
    canonical_ranges_are_unique(other, m);
}

/// Whether every range lies in a file of `length` bytes.
pub open spec fn inside(ranges: Seq<Selection>, length: int) -> bool {
    forall|i: int| 0 <= i < ranges.len() ==> (#[trigger] ranges[i]).high() < length
}

/// Merged ranges reach no further than the ranges they were merged from.
pub proof fn lemma_merged_inside(ranges: Seq<Selection>, m: Seq<Selection>, length: int)
    requires
        canonical(m),
        same_offsets(m, ranges),
        inside(ranges, length),
    ensures
        inside(m, length),
{
    assert forall|i: int| 0 <= i < m.len() implies (#[trigger] m[i]).high() < length by {
        assert(m[i].covers(m[i].high()));
        assert(covered(m, m[i].high()));
        assert(covered(ranges, m[i].high()));
        let k = choose|k: int| 0 <= k < ranges.len() && (#[trigger] ranges[k]).covers(m[i].high());
        assert(ranges[k].high() < length);
    }
}

/// The bytes of a range, as far as the file reaches.
pub open spec fn range_bytes(bytes: Seq<u8>, range: Selection) -> Seq<u8> {
    let last = bytes.len() - 1;
    bytes.subrange(geometry::min(range.low(), last), geometry::min(range.high(), last) + 1)
}

/// The bytes of some ranges, one range after the other.
pub open spec fn gathered(bytes: Seq<u8>, ranges: Seq<Selection>) -> Seq<u8>
    decreases ranges.len(),
{
    if ranges.len() == 0 {
        Seq::empty()
    } else {
        gathered(bytes, ranges.drop_last()) + range_bytes(bytes, ranges.last())
    }
}

/// The bytes of some ranges, one range after the other.
pub fn gather(bytes: &Vec<u8>, ranges: &Vec<Selection>) -> (out: Vec<u8>)
    requires
        bytes.len() > 0,
    ensures
        out@ == gathered(bytes@, ranges@),
{
    let mut out: Vec<u8> = Vec::new();
    let last: usize = bytes.len() - 1;
    let mut i: usize = 0;
    while i < ranges.len()
        invariant
            0 <= i <= ranges.len(),
            last == bytes.len() - 1,
            out@ == gathered(bytes@, ranges@.take(i as int)),
        decreases ranges.len() - i,
    {
        let from: usize = smaller(ranges[i].start(), last);
        let to: usize = smaller(ranges[i].end(), last) + 1;
        let ghost before = out@;
        let mut k: usize = from;
        while k < to
            invariant
                from <= k <= to <= bytes.len(),
                out@ == before + bytes@.subrange(from as int, k as int),
            decreases to - k,
        {
            out.push(bytes[k]);
            k = k + 1;
            assert(out@ =~= before + bytes@.subrange(from as int, k as int));
        }
        proof {
            let more = ranges@.take(i + 1);
            assert(more.drop_last() =~= ranges@.take(i as int));
            assert(more.last() == ranges@[i as int]);
        }
        i = i + 1;
    }
    assert(ranges@.take(i as int) =~= ranges@);
    out
}

/// The ranges that hold the selected offsets below `end`, found one offset after the other.
spec fn runs(ranges: Seq<Selection>, end: nat) -> Seq<Selection>
    decreases end,
{
    if end == 0 {
        Seq::empty()
    } else {
        let offset = end - 1;
        let before = runs(ranges, (end - 1) as nat);
        if !covered(ranges, offset) {
            before
        } else if before.len() > 0 && before.last().cursor == offset - 1 {
            before.update(
                before.len() - 1,
                Selection { anchor: before.last().anchor, cursor: offset as usize },
            )
        } else {
            before.push(Selection::at(offset))
        }
    }
}

proof fn lemma_runs(ranges: Seq<Selection>, end: nat)
    requires
        end <= usize::MAX,
    ensures
        canonical(runs(ranges, end)),
        forall|i: int| 0 <= i < runs(ranges, end).len() ==> (#[trigger] runs(ranges, end)[i]).cursor
            < end,
        forall|offset: int| #[trigger]
            covered(runs(ranges, end), offset) == (0 <= offset < end && covered(ranges, offset)),
    decreases end,
{
    let out = runs(ranges, end);
    if end > 0 {
        let at = end - 1;
        let before = runs(ranges, (end - 1) as nat);
        lemma_runs(ranges, (end - 1) as nat);
        if covered(ranges, at) {
            if before.len() > 0 && before.last().cursor == at - 1 {
                let n = before.len() - 1;
                let rest = before.drop_last();
                let old = before[n];
                let new = Selection { anchor: old.anchor, cursor: at as usize };
                assert(out =~= rest.push(new));
                assert(before =~= rest.push(old));
                assert forall|offset: int| #[trigger]
                    covered(out, offset) == (0 <= offset < end && covered(ranges, offset)) by {
                    lemma_push_covers(rest, new, offset);
                    lemma_push_covers(rest, old, offset);
                    assert(covered(before, offset) == (0 <= offset < at && covered(
                        ranges,
                        offset,
                    )));
                }
                assert forall|i: int, j: int|
                    #![trigger out[i], out[j]]
                    0 <= i < j < out.len() implies out[i].cursor + 1 < out[j].anchor by {
                    assert(before[i].cursor + 1 < before[j].anchor);
                }
            } else {
                let new = Selection::at(at);
                assert forall|offset: int| #[trigger]
                    covered(out, offset) == (0 <= offset < end && covered(ranges, offset)) by {
                    lemma_push_covers(before, new, offset);
                    assert(covered(before, offset) == (0 <= offset < at && covered(
                        ranges,
                        offset,
                    )));
                }
                assert forall|i: int, j: int|
                    #![trigger out[i], out[j]]
                    0 <= i < j < out.len() implies out[i].cursor + 1 < out[j].anchor by {
                    if j == before.len() {
                        let n = before.len() - 1;
                        assert(before[n].cursor < at);
                        if i < n {
                            assert(before[i].cursor + 1 < before[n].anchor);
                            assert(before[n].anchor <= before[n].cursor);
                        }
                    } else {
                        assert(before[i].cursor + 1 < before[j].anchor);
                    }
                }
            }
        } else {
            assert forall|offset: int| #[trigger]
                covered(out, offset) == (0 <= offset < end && covered(ranges, offset)) by {
                assert(covered(before, offset) == (0 <= offset < at && covered(ranges, offset)));
            }
        }
    } else {
        assert forall|offset: int| #[trigger] covered(out, offset) == false by {}
    }
}

/// Ranges in a file can be merged.
pub proof fn lemma_merged_sound(ranges: Seq<Selection>, length: nat)
    requires
        inside(ranges, length as int),
        length <= usize::MAX,
    ensures
        canonical(merged(ranges)),
        same_offsets(merged(ranges), ranges),
{
    let m = runs(ranges, length);
    lemma_runs(ranges, length);
    assert forall|offset: int| #[trigger] covered(m, offset) == covered(ranges, offset) by {
        if covered(ranges, offset) {
            let k = choose|k: int| 0 <= k < ranges.len() && (#[trigger] ranges[k]).covers(offset);
            assert(ranges[k].high() < length);
        }
    }
    assert(canonical(m) && same_offsets(m, ranges));
}

/// The bytes before `end` whose offsets are selected, in the order of the file.
pub open spec fn picked(bytes: Seq<u8>, ranges: Seq<Selection>, end: int) -> Seq<u8>
    decreases end,
{
    if end <= 0 {
        Seq::empty()
    } else if covered(ranges, end - 1) {
        picked(bytes, ranges, end - 1).push(bytes[end - 1])
    } else {
        picked(bytes, ranges, end - 1)
    }
}

pub proof fn lemma_picked_same(bytes: Seq<u8>, left: Seq<Selection>, right: Seq<Selection>, end: int)
    requires
        forall|offset: int| 0 <= offset < end ==> #[trigger] covered(left, offset) == covered(
            right,
            offset,
        ),
    ensures
        picked(bytes, left, end) == picked(bytes, right, end),
    decreases end,
{
    if end > 0 {
        lemma_picked_same(bytes, left, right, end - 1);
        assert(covered(left, end - 1) == covered(right, end - 1));
    }
}

/// What a stretch of offsets adds that are all selected, or all not.
proof fn lemma_picked_stretch(bytes: Seq<u8>, ranges: Seq<Selection>, from: int, to: int, all: bool)
    requires
        0 <= from <= to <= bytes.len(),
        forall|offset: int| from <= offset < to ==> #[trigger] covered(ranges, offset) == all,
    ensures
        picked(bytes, ranges, to) == picked(bytes, ranges, from) + if all {
            bytes.subrange(from, to)
        } else {
            Seq::empty()
        },
    decreases to - from,
{
    if from < to {
        lemma_picked_stretch(bytes, ranges, from, to - 1, all);
        assert(covered(ranges, to - 1) == all);
        if all {
            assert(bytes.subrange(from, to - 1).push(bytes[to - 1]) =~= bytes.subrange(from, to));
        }
    } else {
        assert(bytes.subrange(from, to) =~= Seq::<u8>::empty());
    }
    assert(picked(bytes, ranges, to) =~= picked(bytes, ranges, from) + if all {
        bytes.subrange(from, to)
    } else {
        Seq::empty()
    });
}

/// The bytes of separate, ordered ranges are those at the offsets that they hold, in order.
pub proof fn gathered_bytes_are_in_order(bytes: Seq<u8>, ranges: Seq<Selection>, end: int)
    requires
        canonical(ranges),
        inside(ranges, end),
        0 <= end <= bytes.len(),
    ensures
        gathered(bytes, ranges) == picked(bytes, ranges, end),
    decreases ranges.len(),
{
    if ranges.len() == 0 {
        assert forall|offset: int| 0 <= offset < end implies #[trigger] covered(ranges, offset)
            == false by {}
        lemma_picked_stretch(bytes, ranges, 0, end, false);
        assert(picked(bytes, ranges, end) =~= Seq::<u8>::empty());
    } else {
        let n = ranges.len() - 1;
        let last = ranges[n];
        let rest = ranges.drop_last();
        let from = last.anchor as int;
        let to = last.cursor + 1;
        assert(last.high() < end);
        assert(canonical(rest));
        assert forall|i: int| 0 <= i < rest.len() implies (#[trigger] rest[i]).high() < from by {
            assert(ranges[i].cursor + 1 < ranges[n].anchor);
            assert(ranges[i].anchor <= ranges[i].cursor);
        }
        gathered_bytes_are_in_order(bytes, rest, from);
        assert forall|offset: int| 0 <= offset < from implies #[trigger] covered(rest, offset)
            == covered(ranges, offset) by {
            lemma_drop_last_covers(ranges, offset);
        }
        lemma_picked_same(bytes, rest, ranges, from);
        assert forall|offset: int| from <= offset < to implies #[trigger] covered(ranges, offset)
            == true by {
            assert(ranges[n].covers(offset));
        }
        lemma_picked_stretch(bytes, ranges, from, to, true);
        assert forall|offset: int| to <= offset < end implies #[trigger] covered(ranges, offset)
            == false by {
            if covered(ranges, offset) {
                lemma_last_holds_the_largest(ranges, offset);
            }
        }
        lemma_picked_stretch(bytes, ranges, to, end, false);
        assert(range_bytes(bytes, last) =~= bytes.subrange(from, to));
        assert(gathered(bytes, ranges) =~= picked(bytes, ranges, end));
    }
}

} // verus!
