//! The parts of a file whose entropy is shown, and how often each byte occurs in them.

use vstd::prelude::*;

use crate::geometry;
use crate::geometry::larger;

verus! {

/// The number of parts that a large file is divided into.
pub const TARGET_BUCKETS: usize = 128;

/// The number of bytes in the smallest part of a file, but for the last.
pub const SMALLEST_WINDOW: usize = 256;

/// What a running calculation reports.
#[derive(Clone, Copy, Debug, PartialEq, Eq, Structural)]
pub enum EntropyMessage {
    Progress(usize),
    Done,
}

/// The quotient of two numbers, rounded up.
pub open spec fn divided_up(value: int, divisor: int) -> int {
    (value + divisor - 1) / divisor
}

/// The number of bytes in a part of a file of `length` bytes.
pub open spec fn window_of(length: int) -> int {
    geometry::max(divided_up(length, TARGET_BUCKETS as int), SMALLEST_WINDOW as int)
}

/// The number of bytes in a part of a file of `length` bytes.
pub fn window_size(length: usize) -> (window: usize)
    ensures
        window == window_of(length as int),
{
    let mut parts: usize = length / TARGET_BUCKETS;
    if length % TARGET_BUCKETS != 0 {
        parts = parts + 1;
    }
    larger(parts, SMALLEST_WINDOW)
}

/// The offset at which the part of a file that starts at `from` ends.
pub fn window_end(length: usize, from: usize) -> (to: usize)
    requires
        from < length,
    ensures
        to == geometry::min(from + window_of(length as int), length as int),
        from < to <= length,
{
    let window: usize = window_size(length);
    if length - from <= window {
        length
    } else {
        from + window
    }
}

/// A file that is not empty is divided into at most as many parts as are aimed at.
pub proof fn parts_are_few(length: int)
    requires
        0 < length,
    ensures
        divided_up(length, window_of(length)) <= TARGET_BUCKETS,
        window_of(length) * TARGET_BUCKETS >= length,
{
    let window = window_of(length);
    assert(window >= (length + 127) / 128);
    assert(window * 128 >= length);
    assert(divided_up(length, window) <= 128) by (nonlinear_arith)
        requires
            window * 128 >= length,
            window > 0,
            length > 0,
            divided_up(length, window) == (length + window - 1) / window,
    ;
}

/// How often a byte occurs.
pub open spec fn occurrences(bytes: Seq<u8>, byte: int) -> int
    decreases bytes.len(),
{
    if bytes.len() == 0 {
        0
    } else {
        occurrences(bytes.drop_last(), byte) + if bytes.last() == byte {
            1int
        } else {
            0
        }
    }
}

/// A byte occurs no more often than there are bytes.
pub proof fn lemma_occurrences_bounded(bytes: Seq<u8>, byte: int)
    ensures
        0 <= occurrences(bytes, byte) <= bytes.len(),
    decreases bytes.len(),
{
    if bytes.len() > 0 {
        lemma_occurrences_bounded(bytes.drop_last(), byte);
    }
}

/// How often each byte occurs between two offsets.
pub fn histogram(bytes: &Vec<u8>, from: usize, to: usize) -> (counts: Vec<usize>)
    requires
        from <= to <= bytes.len(),
    ensures
        counts@.len() == 256,
        forall|byte: int|
            0 <= byte < 256 ==> #[trigger] counts@[byte] == occurrences(
                bytes@.subrange(from as int, to as int),
                byte,
            ),
{
    let mut counts: Vec<usize> = Vec::new();
    let mut value: usize = 0;
    while value < 256
        invariant
            value <= 256,
            counts@.len() == value,
            forall|byte: int| 0 <= byte < value ==> #[trigger] counts@[byte] == 0,
        decreases 256 - value,
    {
        counts.push(0);
        value = value + 1;
    }
    let mut at: usize = from;
    while at < to
        invariant
            from <= at <= to <= bytes.len(),
            counts@.len() == 256,
            forall|byte: int|
                0 <= byte < 256 ==> #[trigger] counts@[byte] == occurrences(
                    bytes@.subrange(from as int, at as int),
                    byte,
                ),
        decreases to - at,
    {
        let index: usize = bytes[at] as usize;
        let ghost part = bytes@.subrange(from as int, at as int);
        proof {
            let more = bytes@.subrange(from as int, at + 1);
            assert(more.drop_last() =~= part);
            lemma_occurrences_bounded(part, index as int);
            assert(counts@[index as int] == occurrences(part, index as int));
        }
        counts[index] = counts[index] + 1;
        at = at + 1;
    }
    counts
}

/// How far a calculation has come, as a share of a hundred, in whole numbers. Nothing to do
/// counts as all done.
pub open spec fn percent_of(scanned: int, total: int) -> int {
    if total == 0 {
        100
    } else {
        geometry::min(scanned * 100, usize::MAX as int) / total
    }
}

/// How far a calculation has come, as a share of a hundred.
pub fn percent(scanned: usize, total: usize) -> (share: usize)
    ensures
        share == percent_of(scanned as int, total as int),
{
    if total == 0 {
        return 100;
    }
    let scaled: u128 = (scanned as u128) * 100;
    let limited: usize = if scaled > usize::MAX as u128 {
        usize::MAX
    } else {
        scaled as usize
    };
    limited / total
}

/// A byte occurs as often as there are bytes of its value, and the bytes of two parts are counted
/// together as they are counted apart.
pub proof fn occurrences_are_counted(bytes: Seq<u8>, more: Seq<u8>, byte: int)
    ensures
        occurrences(bytes, byte) == bytes.filter(|b: u8| b == byte).len(),
        occurrences(bytes + more, byte) == occurrences(bytes, byte) + occurrences(more, byte),
    decreases bytes.len() + more.len(),
{
    reveal(Seq::filter);
    if bytes.len() > 0 && more.len() == 0 {
        occurrences_are_counted(bytes.drop_last(), more, byte);
    }
    if more.len() > 0 {
        occurrences_are_counted(bytes, more.drop_last(), byte);
        let whole = bytes + more;
        assert(whole.drop_last() =~= bytes + more.drop_last());
        assert(whole.last() == more.last());
    } else {
        assert(bytes + more =~= bytes);
    }
}

/// All bytes are counted, each under its own value.
pub proof fn all_bytes_are_counted(bytes: Seq<u8>)
    ensures
        counted(bytes, 256) == bytes.len(),
    decreases bytes.len(),
{
    if bytes.len() == 0 {
        lemma_nothing_counted(bytes, 256);
    } else {
        all_bytes_are_counted(bytes.drop_last());
        lemma_one_more_counted(bytes, 256);
    }
}

/// How many bytes have a value below `end`.
pub open spec fn counted(bytes: Seq<u8>, end: int) -> int
    decreases end,
{
    if end <= 0 {
        0
    } else {
        counted(bytes, end - 1) + occurrences(bytes, end - 1)
    }
}

proof fn lemma_nothing_counted(bytes: Seq<u8>, end: int)
    requires
        bytes.len() == 0,
    ensures
        counted(bytes, end) == 0,
    decreases end,
{
    if end > 0 {
        lemma_nothing_counted(bytes, end - 1);
    }
}

proof fn lemma_one_more_counted(bytes: Seq<u8>, end: int)
    requires
        bytes.len() > 0,
        end >= 0,
    ensures
        counted(bytes, end) == counted(bytes.drop_last(), end) + if bytes.last() < end {
            1int
        } else {
            0
        },
    decreases end,
{
    if end > 0 {
        lemma_one_more_counted(bytes, end - 1);
    }
}

/// The share of what is done lies between nothing and a hundred, is a hundred once all is done, and
/// never shrinks while more is done.
pub proof fn shares_grow_to_a_hundred(scanned: int, more: int, total: int)
    requires
        0 <= scanned <= more <= total,
        total * 100 <= usize::MAX,
    ensures
        0 <= percent_of(scanned, total) <= percent_of(more, total) <= 100,
        percent_of(total, total) == 100,
        total > 0 ==> percent_of(scanned, total) * total <= scanned * 100 < (percent_of(
            scanned,
            total,
        ) + 1) * total,
        total > 0 ==> percent_of(0, total) == 0,
{
    if total > 0 {
        vstd::arithmetic::div_mod::lemma_fundamental_div_mod(scanned * 100, total);
        vstd::arithmetic::div_mod::lemma_fundamental_div_mod(more * 100, total);
        vstd::arithmetic::div_mod::lemma_div_is_ordered(scanned * 100, more * 100, total);
        vstd::arithmetic::div_mod::lemma_div_is_ordered(more * 100, total * 100, total);
        vstd::arithmetic::div_mod::lemma_div_multiples_vanish(100, total);
        vstd::arithmetic::div_mod::lemma_div_basics(total);
        assert(total * 100 == 100 * total);
        let share = (scanned * 100) / total;
        assert(total * share == share * total) by (nonlinear_arith);
        assert((share + 1) * total == share * total + total) by (nonlinear_arith);
        vstd::arithmetic::div_mod::lemma_mod_bound(scanned * 100, total);
    }
}

/// The parts of a file are no larger than they have to be: with parts that are one byte smaller there
/// would be more than are aimed at, or they would be too small to tell anything.
pub proof fn parts_are_small(length: int)
    requires
        0 <= length,
    ensures
        window_of(length) >= 256,
        window_of(length) > 256 ==> (window_of(length) - 1) * 128 < length,
        length <= 256 * 128 ==> window_of(length) == 256,
{
}

} // verus!
