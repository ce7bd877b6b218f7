//! Which rows a batch retains.
//!
//! A batch holds the newest row, and older rows one after another for as long
//! as the whole stays within a row cap and a byte cap. The newest row is there
//! whatever its size, so that a reader always makes progress.

use vstd::prelude::*;

verus! {

/// The most rows that a batch holds.
pub const MAX_BATCH_ROWS: usize = 128;

/// The most bytes that the rows of a batch hold together, unless the batch is a
/// single row.
pub const MAX_BATCH_BYTES: usize = 64 * 1024;

/// The bytes that the rows hold together.
pub open spec fn total_bytes(rows: Seq<Seq<u8>>) -> nat
    decreases rows.len(),
{
    if rows.len() == 0 {
        0
    } else {
        rows[0].len() + total_bytes(rows.skip(1))
    }
}

/// Whether the rows are within both caps.
pub open spec fn fits(rows: Seq<Seq<u8>>) -> bool {
    rows.len() <= MAX_BATCH_ROWS && total_bytes(rows) <= MAX_BATCH_BYTES
}

/// The lowest index that is reached from `start` by stepping to an older row for
/// as long as all rows from there on fit.
pub open spec fn extend_window(rows: Seq<Seq<u8>>, start: int) -> int
    decreases start,
{
    if start > 0 && fits(rows.skip(start - 1)) {
        extend_window(rows, start - 1)
    } else {
        start
    }
}

/// The index of the oldest row that a batch of `rows` retains.
pub open spec fn window_start(rows: Seq<Seq<u8>>) -> int {
    if rows.len() == 0 {
        0
    } else {
        extend_window(rows, rows.len() - 1)
    }
}

/// The rows that a batch of `rows` retains, oldest first.
pub open spec fn window(rows: Seq<Seq<u8>>) -> Seq<Seq<u8>> {
    rows.skip(window_start(rows))
}

pub proof fn lemma_total_push(rows: Seq<Seq<u8>>, row: Seq<u8>)
    ensures
        total_bytes(rows.push(row)) == total_bytes(rows) + row.len(),
    decreases rows.len(),
{
    if rows.len() == 0 {
        assert(rows.push(row).skip(1) =~= rows);
    } else {
        assert(rows.push(row).skip(1) =~= rows.skip(1).push(row));
        lemma_total_push(rows.skip(1), row);
    }
}

/// Rows stay within the caps when older ones are left out.
pub proof fn lemma_fits_skip(rows: Seq<Seq<u8>>, from: int, to: int)
    requires
        0 <= from <= to <= rows.len(),
        fits(rows.skip(from)),
    ensures
        fits(rows.skip(to)),
    decreases to - from,
{
    if from < to {
        assert(rows.skip(from).skip(1) =~= rows.skip(from + 1));
        lemma_fits_skip(rows, from + 1, to);
    }
}

pub proof fn lemma_window_start_range(rows: Seq<Seq<u8>>)
    ensures
        0 <= window_start(rows) <= rows.len(),
        rows.len() > 0 ==> window_start(rows) < rows.len(),
        window_start(rows) + 1 < rows.len() ==> fits(window(rows)),
        window_start(rows) > 0 ==> !fits(rows.skip(window_start(rows) - 1)),
{
    if rows.len() > 0 {
        lemma_extend_range(rows, rows.len() - 1);
    }
}

proof fn lemma_extend_range(rows: Seq<Seq<u8>>, start: int)
    requires
        0 <= start < rows.len(),
    ensures
        0 <= extend_window(rows, start) <= start,
        extend_window(rows, start) < start ==> fits(rows.skip(extend_window(rows, start))),
        extend_window(rows, start) > 0 ==> !fits(rows.skip(extend_window(rows, start) - 1)),
    decreases start,
{
    if start > 0 && fits(rows.skip(start - 1)) {
        lemma_extend_range(rows, start - 1);
    }
}

/// What singles out the start of the window.
pub proof fn lemma_window_start_is(rows: Seq<Seq<u8>>, start: int)
    requires
        0 <= start < rows.len(),
        start + 1 == rows.len() || fits(rows.skip(start)),
        start == 0 || !fits(rows.skip(start - 1)),
    ensures
        window_start(rows) == start,
{
    lemma_extend_reaches(rows, rows.len() - 1, start);
}

proof fn lemma_extend_reaches(rows: Seq<Seq<u8>>, from: int, start: int)
    requires
        0 <= start <= from < rows.len(),
        start == from || fits(rows.skip(start)),
        start == 0 || !fits(rows.skip(start - 1)),
    ensures
        extend_window(rows, from) == start,
    decreases from,
{
    if start < from {
        lemma_fits_skip(rows, start, from - 1);
        lemma_extend_reaches(rows, from - 1, start);
    }
}

/// Rows that are outside the window stay outside when a newer row arrives.
pub proof fn lemma_window_push(rows: Seq<Seq<u8>>, row: Seq<u8>)
    ensures
        window_start(rows.push(row)) == window_start(rows) + window_start(window(rows).push(row)),
        window(rows.push(row)) == window(window(rows).push(row)),
{
    let kept = window(rows);
    let all = rows.push(row);
    let grown = kept.push(row);
    let base = window_start(rows);
    let step = window_start(grown);
    lemma_window_start_range(rows);
    lemma_window_start_range(grown);
    assert forall|i: int| 0 <= i <= grown.len() implies #[trigger] grown.skip(i) == all.skip(
        base + i,
    ) by {
        assert(grown.skip(i) =~= all.skip(base + i));
    }
    if step > 0 {
        assert(grown.skip(step - 1) == all.skip(base + (step - 1)));
        assert(base + (step - 1) == base + step - 1);
    } else if base > 0 {
        assert(all.skip(base - 1) =~= rows.skip(base - 1).push(row));
        lemma_total_push(rows.skip(base - 1), row);
    }
    assert(grown.skip(step) == all.skip(base + step));
    lemma_window_start_is(all, base + step);
}

/// The bytes of the rows together are those of the rows one after another.
pub proof fn law_total_is_the_joined_length(rows: Seq<Seq<u8>>)
    ensures
        total_bytes(rows) == rows.flatten().len(),
    decreases rows.len(),
{
    if rows.len() > 0 {
        assert(rows.skip(1) =~= rows.drop_first());
        law_total_is_the_joined_length(rows.skip(1));
    }
}

/// Rows fit where there are at most 128 of them, with at most 65536 bytes together.
pub proof fn law_caps(rows: Seq<Seq<u8>>)
    ensures
        fits(rows) <==> rows.len() <= 128 && rows.flatten().len() <= 65536,
{
    law_total_is_the_joined_length(rows);
}

/// The window is the longest run of newest rows of at most 128 rows and at most 65536 bytes; the
/// newest row is in it whatever its size. One row more would be over a cap.
pub proof fn law_window_is_the_longest_within_the_caps(rows: Seq<Seq<u8>>)
    ensures
        ({
            let start = window_start(rows);
            let kept = rows.len() - start;
            &&& 0 <= start <= rows.len()
            &&& rows.len() > 0 ==> kept > 0
            &&& kept <= 128
            &&& kept > 1 ==> rows.skip(start).flatten().len() <= 65536
            &&& start > 0 ==> kept + 1 > 128 || rows.skip(start - 1).flatten().len() > 65536
            &&& window(rows) == rows.skip(start)
        }),
{
    lemma_window_start_range(rows);
    let start = window_start(rows);
    law_caps(rows.skip(start));
    if start > 0 {
        law_caps(rows.skip(start - 1));
    }
}

} // verus!
