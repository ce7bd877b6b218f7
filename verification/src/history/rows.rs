//! How a history log splits into rows.
//!
//! A log is a run of bytes. Every newline ends a row and belongs to it; what
//! follows the last newline, if anything does, is one more row that nothing
//! ends yet.

use vstd::prelude::*;

verus! {

/// The byte that ends a row.
pub const NEWLINE: u8 = 0x0A;

/// What follows the last newline of `bytes`.
pub open spec fn partial_row(bytes: Seq<u8>) -> Seq<u8>
    decreases bytes.len(),
{
    if bytes.len() == 0 || bytes.last() == NEWLINE {
        Seq::empty()
    } else {
        partial_row(bytes.drop_last()).push(bytes.last())
    }
}

/// The rows of `bytes` that a newline ends, oldest first.
pub open spec fn complete_rows(bytes: Seq<u8>) -> Seq<Seq<u8>>
    decreases bytes.len(),
{
    if bytes.len() == 0 {
        Seq::empty()
    } else if bytes.last() == NEWLINE {
        complete_rows(bytes.drop_last()).push(partial_row(bytes.drop_last()).push(NEWLINE))
    } else {
        complete_rows(bytes.drop_last())
    }
}

/// All rows of `bytes`, oldest first. The index of a row is its absolute offset.
pub open spec fn rows(bytes: Seq<u8>) -> Seq<Seq<u8>> {
    if partial_row(bytes).len() == 0 {
        complete_rows(bytes)
    } else {
        complete_rows(bytes).push(partial_row(bytes))
    }
}

/// The rows of `all` from the oldest through the one at `end_offset`, or all of
/// them where there are fewer.
pub open spec fn through(all: Seq<Seq<u8>>, end_offset: int) -> Seq<Seq<u8>> {
    if end_offset + 1 < all.len() {
        all.take(end_offset + 1)
    } else {
        all
    }
}

/// Whether no byte of `bytes` is a newline.
pub open spec fn newline_free(bytes: Seq<u8>) -> bool {
    forall|i: int| 0 <= i < bytes.len() ==> bytes[i] != NEWLINE
}

/// Bytes without a newline lengthen the partial row and complete none.
pub proof fn lemma_append_newline_free(bytes: Seq<u8>, more: Seq<u8>)
    requires
        newline_free(more),
    ensures
        partial_row(bytes + more) == partial_row(bytes) + more,
        complete_rows(bytes + more) == complete_rows(bytes),
    decreases more.len(),
{
    if more.len() == 0 {
        assert(bytes + more =~= bytes);
        assert(partial_row(bytes) + more =~= partial_row(bytes));
    } else {
        let whole = bytes + more;
        lemma_append_newline_free(bytes, more.drop_last());
        assert(whole.drop_last() =~= bytes + more.drop_last());
        assert(whole.last() == more[more.len() - 1]);
        assert((partial_row(bytes) + more.drop_last()).push(more.last()) =~= partial_row(bytes)
            + more);
    }
}

/// Bytes whose only newline is their last complete the partial row.
pub proof fn lemma_append_line(bytes: Seq<u8>, line: Seq<u8>)
    requires
        line.len() > 0,
        line.last() == NEWLINE,
        newline_free(line.drop_last()),
    ensures
        partial_row(bytes + line) == Seq::<u8>::empty(),
        complete_rows(bytes + line) == complete_rows(bytes).push(partial_row(bytes) + line),
{
    let whole = bytes + line;
    lemma_append_newline_free(bytes, line.drop_last());
    assert(whole.drop_last() =~= bytes + line.drop_last());
    assert(whole.last() == NEWLINE);
    assert((partial_row(bytes) + line.drop_last()).push(NEWLINE) =~= partial_row(bytes) + line);
}

/// More bytes leave the completed rows as they are, and first in order.
pub proof fn lemma_complete_rows_grow(bytes: Seq<u8>, more: Seq<u8>)
    ensures
        complete_rows(bytes).len() <= complete_rows(bytes + more).len(),
        complete_rows(bytes + more).take(complete_rows(bytes).len() as int) == complete_rows(bytes),
    decreases more.len(),
{
    let n = complete_rows(bytes).len() as int;
    if more.len() == 0 {
        assert(bytes + more =~= bytes);
        assert(complete_rows(bytes).take(n) =~= complete_rows(bytes));
    } else {
        let whole = bytes + more;
        lemma_complete_rows_grow(bytes, more.drop_last());
        assert(whole.drop_last() =~= bytes + more.drop_last());
        assert(complete_rows(whole).take(n) =~= complete_rows(whole.drop_last()).take(n));
    }
}

/// The rows of a log, one after another, are the log: splitting loses nothing,
/// adds nothing and keeps the order.
pub proof fn law_rows_concat_to_bytes(bytes: Seq<u8>)
    ensures
        rows(bytes).flatten() == bytes,
{
    lemma_complete_and_partial(bytes);
    rows(bytes).lemma_flatten_and_flatten_alt_are_equivalent();
    let complete = complete_rows(bytes);
    let partial = partial_row(bytes);
    if partial.len() == 0 {
        assert(complete.flatten_alt() + partial =~= complete.flatten_alt());
    } else {
        assert(complete.push(partial).drop_last() =~= complete);
    }
}

proof fn lemma_complete_and_partial(bytes: Seq<u8>)
    ensures
        complete_rows(bytes).flatten_alt() + partial_row(bytes) == bytes,
    decreases bytes.len(),
{
    if bytes.len() == 0 {
        assert(complete_rows(bytes).flatten_alt() + partial_row(bytes) =~= bytes);
    } else {
        let shorter = bytes.drop_last();
        lemma_complete_and_partial(shorter);
        if bytes.last() == NEWLINE {
            let line = partial_row(shorter).push(NEWLINE);
            assert(complete_rows(shorter).push(line).drop_last() =~= complete_rows(shorter));
            assert(complete_rows(shorter).flatten_alt() + line + Seq::<u8>::empty() =~= shorter.push(
                NEWLINE,
            ));
        } else {
            assert(complete_rows(shorter).flatten_alt() + partial_row(shorter).push(bytes.last())
                =~= shorter.push(bytes.last()));
        }
        assert(shorter.push(bytes.last()) =~= bytes);
    }
}

/// A row holds no newline but the one that ends it. Every row but the newest is
/// ended by one, and no row is empty.
pub proof fn law_rows_are_lines(bytes: Seq<u8>, offset: int)
    requires
        0 <= offset < rows(bytes).len(),
    ensures
        rows(bytes)[offset].len() > 0,
        newline_free(rows(bytes)[offset].drop_last()),
        offset + 1 < rows(bytes).len() ==> rows(bytes)[offset].last() == NEWLINE,
{
    lemma_partial_is_newline_free(bytes);
    if offset < complete_rows(bytes).len() {
        lemma_complete_is_line(bytes, offset);
    }
}

proof fn lemma_partial_is_newline_free(bytes: Seq<u8>)
    ensures
        newline_free(partial_row(bytes)),
    decreases bytes.len(),
{
    if bytes.len() > 0 && bytes.last() != NEWLINE {
        lemma_partial_is_newline_free(bytes.drop_last());
    }
}

proof fn lemma_complete_is_line(bytes: Seq<u8>, offset: int)
    requires
        0 <= offset < complete_rows(bytes).len(),
    ensures
        complete_rows(bytes)[offset].len() > 0,
        complete_rows(bytes)[offset].last() == NEWLINE,
        newline_free(complete_rows(bytes)[offset].drop_last()),
    decreases bytes.len(),
{
    let shorter = bytes.drop_last();
    if bytes.last() == NEWLINE && offset == complete_rows(shorter).len() {
        lemma_partial_is_newline_free(shorter);
        assert(partial_row(shorter).push(NEWLINE).drop_last() =~= partial_row(shorter));
    } else {
        lemma_complete_is_line(shorter, offset);
    }
}

/// Splitting cuts after every byte 10 and nowhere else: the rows give back the log, none is empty,
/// only the last byte of a row can be 10, and in every row but the newest it is.
pub proof fn law_rows_are_cut_after_every_newline(bytes: Seq<u8>)
    ensures
        rows(bytes).flatten() == bytes,
        forall|offset: int|
            0 <= offset < rows(bytes).len() ==> (#[trigger] rows(bytes)[offset]).len() > 0,
        forall|offset: int, i: int|
            0 <= offset < rows(bytes).len() && 0 <= i < rows(bytes)[offset].len() - 1
                ==> #[trigger] rows(bytes)[offset][i] != 10,
        forall|offset: int|
            0 <= offset < rows(bytes).len() - 1 ==> (#[trigger] rows(bytes)[offset]).last() == 10,
{
    law_rows_concat_to_bytes(bytes);
    assert forall|offset: int| 0 <= offset < rows(bytes).len() implies (
    #[trigger] rows(bytes)[offset]).len() > 0 by {
        law_rows_are_lines(bytes, offset);
    }
    assert forall|offset: int, i: int|
        0 <= offset < rows(bytes).len() && 0 <= i < rows(bytes)[offset].len()
            - 1 implies #[trigger] rows(bytes)[offset][i] != 10 by {
        law_rows_are_lines(bytes, offset);
        assert(rows(bytes)[offset].drop_last()[i] == rows(bytes)[offset][i]);
    }
    assert forall|offset: int| 0 <= offset < rows(bytes).len() - 1 implies (
    #[trigger] rows(bytes)[offset]).last() == 10 by {
        law_rows_are_lines(bytes, offset);
    }
}

/// Reading gives back what was written: a log that is made of lines, each of which ends in byte 10
/// and holds no other, and of a tail without byte 10, has these lines as its complete rows and the
/// tail, unless it is empty, as one row more.
pub proof fn law_written_lines_are_the_rows(lines: Seq<Seq<u8>>, tail: Seq<u8>)
    requires
        forall|k: int|
            0 <= k < lines.len() ==> (#[trigger] lines[k]).len() > 0 && lines[k].last() == 10,
        forall|k: int, i: int|
            0 <= k < lines.len() && 0 <= i < lines[k].len() - 1 ==> #[trigger] lines[k][i] != 10,
        forall|i: int| 0 <= i < tail.len() ==> #[trigger] tail[i] != 10,
    ensures
        complete_rows(lines.flatten() + tail) == lines,
        partial_row(lines.flatten() + tail) == tail,
        tail.len() == 0 ==> rows(lines.flatten() + tail) == lines,
        tail.len() > 0 ==> rows(lines.flatten() + tail) == lines.push(tail),
{
    lemma_written_lines(lines);
    lemma_append_newline_free(lines.flatten(), tail);
    assert(Seq::<u8>::empty() + tail =~= tail);
}

proof fn lemma_written_lines(lines: Seq<Seq<u8>>)
    requires
        forall|k: int|
            0 <= k < lines.len() ==> (#[trigger] lines[k]).len() > 0 && lines[k].last() == 10,
        forall|k: int, i: int|
            0 <= k < lines.len() && 0 <= i < lines[k].len() - 1 ==> #[trigger] lines[k][i] != 10,
    ensures
        complete_rows(lines.flatten()) == lines,
        partial_row(lines.flatten()) == Seq::<u8>::empty(),
    decreases lines.len(),
{
    if lines.len() == 0 {
        assert(complete_rows(lines.flatten()) =~= lines);
    } else {
        let earlier = lines.drop_last();
        let line = lines.last();
        assert forall|k: int| 0 <= k < earlier.len() implies (#[trigger] earlier[k]).len() > 0
            && earlier[k].last() == 10 by {
            assert(earlier[k] == lines[k]);
        }
        assert forall|k: int, i: int|
            0 <= k < earlier.len() && 0 <= i < earlier[k].len() - 1 implies #[trigger] earlier[k][i]
            != 10 by {
            assert(earlier[k][i] == lines[k][i]);
        }
        lemma_written_lines(earlier);
        lines.lemma_flatten_and_flatten_alt_are_equivalent();
        earlier.lemma_flatten_and_flatten_alt_are_equivalent();
        assert(lines.flatten() == earlier.flatten() + line);
        assert(line == lines[lines.len() - 1]);
        assert forall|i: int| 0 <= i < line.drop_last().len() implies line.drop_last()[i]
            != NEWLINE by {
            assert(lines[lines.len() - 1][i] != 10);
        }
        lemma_append_line(earlier.flatten(), line);
        assert(Seq::<u8>::empty() + line =~= line);
        assert(earlier.push(line) =~= lines);
    }
}

/// The rows through an offset are the oldest ones, up to and with the row at that offset where the
/// log has it.
pub proof fn law_through_keeps_the_oldest(all: Seq<Seq<u8>>, end_offset: int)
    requires
        end_offset >= 0,
    ensures
        end_offset < all.len() ==> through(all, end_offset).len() == end_offset + 1,
        end_offset >= all.len() ==> through(all, end_offset).len() == all.len(),
        forall|i: int|
            0 <= i < through(all, end_offset).len() ==> #[trigger] through(all, end_offset)[i]
                == all[i],
{
}

} // verus!
