//! What calls of the history lookup give, in terms of their arguments and of one another.

use std::collections::VecDeque;
use vstd::prelude::*;

use super::batch;
use super::batch::{
    finish_batch, parse_entry, retain_row, HistoryBatch, HistoryEntry, RawHistoryBatchEntry,
};
use super::laws;
use super::lookup::{
    lookup_batch, lookup_batch_from_file, BatchLookup, FileAction, HistoryAction, HistoryEvent,
    LookupError, LookupPhase,
};
use super::rows;
use super::scan::{scan_batch, BatchScan};
use super::window;

verus! {

/// Decoding a row gives what the decoder computes for its record: the row without bytes 13 and 10,
/// or one of them, at its end.
pub proof fn law_parse_call<P: Fn(&[u8]) -> Option<HistoryEntry>>(
    raw: &[u8],
    decode: &P,
    entry: Option<HistoryEntry>,
    f: spec_fn(Seq<u8>) -> Option<HistoryEntry>,
    body: Seq<u8>,
)
    requires
        call_ensures(parse_entry::<P>, (raw, decode), entry),
        forall|bytes: &[u8], found: Option<HistoryEntry>| #[trigger]
            call_ensures(*decode, (bytes,), found) ==> found == f(bytes@),
        ({
            ||| raw@ == body + seq![13u8, 10u8]
            ||| raw@ == body + seq![10u8] && (body.len() == 0 || body.last() != 13)
            ||| raw@ == body + seq![13u8]
            ||| raw@ == body && (body.len() == 0 || body.last() != 13 && body.last() != 10)
        }),
    ensures
        entry == f(body),
{
    let row = raw@;
    batch::law_record_is_the_row_without_its_ending(row);
    batch::law_decoding_is_the_decoder(*decode, f, batch::record_body(row), entry);
    if row == body + seq![13u8, 10u8] {
        assert(row.take(row.len() - 2) =~= body);
    } else if row == body + seq![10u8] {
        assert(row.take(row.len() - 1) =~= body);
        assert(body.len() > 0 ==> row[row.len() - 2] == body.last());
    } else if row == body + seq![13u8] {
        assert(row.take(row.len() - 1) =~= body);
    }
}

/// Finishing a batch gives for each row, newest first, its offset and what decoding it gives, and
/// the offset before the oldest.
pub proof fn law_finish_call<P: Fn(&[u8]) -> Option<HistoryEntry>>(
    suffix: VecDeque<RawHistoryBatchEntry>,
    decode: &P,
    finished: HistoryBatch,
    f: spec_fn(Seq<u8>) -> Option<HistoryEntry>,
    k: int,
    raw: &[u8],
    entry: Option<HistoryEntry>,
)
    requires
        call_ensures(finish_batch::<P>, (suffix, decode), finished),
        forall|bytes: &[u8], found: Option<HistoryEntry>| #[trigger]
            call_ensures(*decode, (bytes,), found) ==> found == f(bytes@),
        0 <= k < suffix@.len(),
        raw@ == suffix@[k].bytes@,
        call_ensures(parse_entry::<P>, (raw, decode), entry),
    ensures
        finished.entries@.len() == suffix@.len(),
        finished.entries@[suffix@.len() - 1 - k].offset == suffix@[k].offset,
        finished.entries@[suffix@.len() - 1 - k].entry == entry,
        suffix@[0].offset == 0 ==> finished.next_older_offset == None::<usize>,
        suffix@[0].offset > 0 ==> finished.next_older_offset is Some
            && finished.next_older_offset->0 + 1 == suffix@[0].offset,
{
    batch::law_batch_shows_each_row(finished, suffix@, *decode, f);
    batch::law_decoding_is_the_decoder(*decode, f, batch::record_body(raw@), entry);
}

/// Retaining a row puts it last and lets go of the oldest rows, no more than needed: at most 128
/// rows and 65536 bytes stay, unless the new row is alone, and one row more would be over a cap.
/// The byte count is that of the rows that stay.
pub proof fn law_retain_call(
    suffix: &mut VecDeque<RawHistoryBatchEntry>,
    suffix_bytes: &mut usize,
    offset: usize,
    bytes: Vec<u8>,
)
    requires
        call_ensures(retain_row, (suffix, suffix_bytes, offset, bytes), ()),
    ensures
        ({
            let grown = old(suffix)@.push(RawHistoryBatchEntry { offset, bytes });
            let kept = final(suffix)@;
            let dropped = grown.len() - kept.len();
            let size = |rows: Seq<RawHistoryBatchEntry>|
                rows.map_values(|row: RawHistoryBatchEntry| row.bytes@).flatten().len();
            &&& dropped >= 0
            &&& kept == grown.skip(dropped)
            &&& 0 < kept.len() <= 128
            &&& kept.len() > 1 ==> size(kept) <= 65536
            &&& dropped > 0 ==> kept.len() + 1 > 128 || size(grown.skip(dropped - 1)) > 65536
            &&& *final(suffix_bytes) == size(kept)
        }),
{
    let grown = old(suffix)@.push(RawHistoryBatchEntry { offset, bytes });
    let all = batch::row_bytes(grown);
    let start = window::window_start(all);
    batch::law_row_bytes_are_those_of_each_row(grown);
    window::law_window_is_the_longest_within_the_caps(all);
    let kept = final(suffix)@;
    let of_row = |row: RawHistoryBatchEntry| row.bytes@;
    batch::law_row_bytes_are_those_of_each_row(kept);
    assert(batch::row_bytes(kept) =~= kept.map_values(of_row));
    assert(kept.map_values(of_row) =~= all.skip(start));
    if start > 0 {
        assert(grown.skip(start - 1).map_values(of_row) =~= all.skip(start - 1));
    }
    window::law_total_is_the_joined_length(batch::row_bytes(kept));
}

/// A scan has read what its reads brought, one after another, and nothing else. It ends with the
/// log or with the line at the offset that it was made for.
pub proof fn law_scan_calls(
    end_offset: usize,
    fresh: BatchScan,
    scan: &mut BatchScan,
    chunk: &[u8],
    finished: bool,
    lines: Seq<Seq<u8>>,
    tail: Seq<u8>,
)
    requires
        call_ensures(BatchScan::new, (end_offset,), fresh),
        call_ensures(scan_batch, (scan, chunk), finished),
        final(scan).consumed() == lines.flatten() + tail,
        forall|k: int|
            0 <= k < lines.len() ==> (#[trigger] lines[k]).len() > 0 && lines[k].last() == 10,
        forall|k: int, i: int|
            0 <= k < lines.len() && 0 <= i < lines[k].len() - 1 ==> #[trigger] lines[k][i] != 10,
        forall|i: int| 0 <= i < tail.len() ==> #[trigger] tail[i] != 10,
    ensures
        fresh.consumed() == Seq::<u8>::empty(),
        fresh.end_offset() == end_offset,
        !fresh.finished(),
        final(scan).consumed() == old(scan).consumed() + chunk@,
        final(scan).end_offset() == old(scan).end_offset(),
        finished <==> chunk@.len() == 0 || lines.len() > old(scan).end_offset(),
        finished == final(scan).finished(),
{
    rows::law_written_lines_are_the_rows(lines, tail);
}

/// A finished scan gives back the newest lines of what it has read, up to the offset that it was
/// made for: each as the decoder computes it, at its place in the log.
pub proof fn law_scan_finish_call<P: Fn(&[u8]) -> Option<HistoryEntry>>(
    scan: BatchScan,
    decode: &P,
    finished: HistoryBatch,
    f: spec_fn(Seq<u8>) -> Option<HistoryEntry>,
    lines: Seq<Seq<u8>>,
)
    requires
        call_ensures(BatchScan::finish::<P>, (scan, decode), finished),
        forall|bytes: &[u8], found: Option<HistoryEntry>| #[trigger]
            call_ensures(*decode, (bytes,), found) ==> found == f(bytes@),
        lines.len() <= usize::MAX,
        scan.consumed() == lines.flatten(),
        forall|k: int|
            0 <= k < lines.len() ==> (#[trigger] lines[k]).len() > 0 && lines[k].last() == 10,
        forall|k: int, i: int|
            0 <= k < lines.len() && 0 <= i < lines[k].len() - 1 ==> #[trigger] lines[k][i] != 10,
    ensures
        ({
            let count = if scan.end_offset() < lines.len() {
                scan.end_offset() + 1
            } else {
                lines.len() as int
            };
            let shown = finished.entries@.len() as int;
            let hidden = count - shown;
            &&& hidden >= 0
            &&& shown <= 128
            &&& count > 0 ==> shown > 0
            &&& shown > 1 ==> lines.subrange(hidden, count).flatten().len() <= 65536
            &&& hidden > 0 ==> shown + 1 > 128 || lines.subrange(hidden - 1, count).flatten().len()
                > 65536
            &&& hidden == 0 ==> finished.next_older_offset == None::<usize>
            &&& hidden > 0 ==> finished.next_older_offset is Some && finished.next_older_offset->0
                == hidden - 1
            &&& forall|i: int|
                0 <= i < shown ==> (#[trigger] finished.entries@[i]).offset == count - 1 - i
            &&& forall|i: int|
                0 <= i < shown && (lines[count - 1 - i].len() == 1 || lines[count - 1
                    - i][lines[count - 1 - i].len() - 2] != 13) ==> (
                #[trigger] finished.entries@[i]).entry == f(lines[count - 1 - i].drop_last())
            &&& forall|i: int|
                0 <= i < shown && lines[count - 1 - i].len() > 1 && lines[count - 1 - i][lines[count
                    - 1 - i].len() - 2] == 13 ==> (#[trigger] finished.entries@[i]).entry == f(
                    lines[count - 1 - i].drop_last().drop_last(),
                )
        }),
{
    let tail = Seq::<u8>::empty();
    rows::law_written_lines_are_the_rows(lines, tail);
    assert(lines.flatten() + tail =~= lines.flatten());
    let through = rows::through(lines, scan.end_offset() as int);
    rows::law_through_keeps_the_oldest(lines, scan.end_offset() as int);
    laws::law_batch_shows_the_newest_rows(finished, through, *decode, f);
    let count = through.len() as int;
    let shown = finished.entries@.len() as int;
    let hidden = count - shown;
    assert(through.skip(hidden) =~= lines.subrange(hidden, count));
    if hidden > 0 {
        assert(through.skip(hidden - 1) =~= lines.subrange(hidden - 1, count));
    }
    assert forall|i: int| 0 <= i < shown implies (#[trigger] finished.entries@[i]).entry == f(
        batch::record_body(lines[count - 1 - i]),
    ) by {
        assert(through[count - 1 - i] == lines[count - 1 - i]);
    }
    assert forall|k: int| 0 <= k < lines.len() implies (lines[k].len() == 1 || lines[k][lines[k].len()
        - 2] != 13 ==> batch::record_body(#[trigger] lines[k]) == lines[k].drop_last()) && (
    lines[k].len() > 1 && lines[k][lines[k].len() - 2] == 13 ==> batch::record_body(lines[k])
        == lines[k].drop_last().drop_last()) by {
        let line = lines[k];
        batch::law_record_is_the_row_without_its_ending(line);
        assert(line.drop_last() =~= line.take(line.len() - 1));
        if line.len() > 1 {
            assert(line.drop_last().drop_last() =~= line.take(line.len() - 2));
        }
    }
}

/// A lookup that is told of the open file refuses every identity but the one that was asked for,
/// and no identity at all, with an empty batch; log ID zero takes any. What it takes it goes on to
/// lock, with all attempts left.
pub proof fn law_opened_call<P: Fn(&[u8]) -> Option<HistoryEntry>>(
    log_id: u64,
    end_offset: usize,
    max_retries: usize,
    fresh: BatchLookup,
    identity: Option<u64>,
    decode: &P,
    step: (BatchLookup, HistoryAction),
)
    requires
        call_ensures(BatchLookup::new, (log_id, end_offset, max_retries), fresh),
        call_ensures(
            lookup_batch::<P>,
            (fresh, HistoryEvent::Opened { identity }, decode),
            step,
        ),
    ensures
        ({
            let same = identity is Some && identity->0 == log_id;
            &&& log_id != 0 && !same ==> {
                &&& step.0.phase is Finished
                &&& step.1 is Return
                &&& step.1->batch.entries@.len() == 0
                &&& step.1->batch.next_older_offset == None::<usize>
                &&& step.1->failure == None::<LookupError>
            }
            &&& (log_id == 0 || same) && max_retries > 0 ==> {
                &&& step.1 is TryLock
                &&& step.0.phase is Locking
                &&& step.0.phase->Locking_attempts == max_retries
            }
            &&& (log_id == 0 || same) && max_retries == 0 ==> {
                &&& step.1 is Return
                &&& step.1->batch.entries@.len() == 0
                &&& step.1->batch.next_older_offset == None::<usize>
                &&& step.1->failure == Some(LookupError::LockUnavailable)
            }
            &&& step.0.request.log_id == log_id
            &&& step.0.request.end_offset == end_offset
            &&& step.0.request.max_retries == max_retries
        }),
{
    laws::law_identity_decides(log_id, end_offset, max_retries, identity, step.1, *decode);
    laws::law_phases_are_seen_as_they_are(step.0.phase);
}

/// A busy lock costs one attempt and a pause; after the pause the next attempt follows, or the end
/// where none is left; a lock that is held starts the reading.
pub proof fn law_lock_calls<P: Fn(&[u8]) -> Option<HistoryEntry>>(
    lookup: BatchLookup,
    attempts: usize,
    decode: &P,
    locked: (BatchLookup, HistoryAction),
    busy: (BatchLookup, HistoryAction),
    slept: (BatchLookup, HistoryAction),
)
    requires
        lookup.phase == (LookupPhase::Locking { attempts }),
        attempts > 0,
        call_ensures(lookup_batch::<P>, (lookup, HistoryEvent::Locked, decode), locked),
        call_ensures(lookup_batch::<P>, (lookup, HistoryEvent::LockBusy, decode), busy),
        call_ensures(lookup_batch::<P>, (busy.0, HistoryEvent::Slept, decode), slept),
    ensures
        locked.1 is Read,
        locked.0.phase is Scanning,
        locked.0.phase->scan.consumed() == Seq::<u8>::empty(),
        locked.0.request == lookup.request,
        busy.1 is Sleep,
        slept.0.request == lookup.request,
        attempts > 1 ==> slept.1 is TryLock && slept.0.phase is Locking
            && slept.0.phase->Locking_attempts == attempts - 1,
        attempts == 1 ==> slept.1 is Return && slept.1->batch.entries@.len() == 0
            && slept.1->batch.next_older_offset == None::<usize> && slept.1->failure == Some(
            LookupError::LockUnavailable,
        ),
{
    laws::law_phases_are_seen_as_they_are(locked.0.phase);
    laws::law_phases_are_seen_as_they_are(busy.0.phase);
    laws::law_phases_are_seen_as_they_are(slept.0.phase);
}

/// A failure of opening, locking or reading ends the lookup with an empty batch and is reported.
pub proof fn law_failure_call<P: Fn(&[u8]) -> Option<HistoryEntry>>(
    lookup: BatchLookup,
    decode: &P,
    step: (BatchLookup, HistoryAction),
)
    requires
        lookup.phase is Opening || lookup.phase is Locking || lookup.phase is Scanning,
        call_ensures(lookup_batch::<P>, (lookup, HistoryEvent::Failed, decode), step),
    ensures
        step.0.phase is Finished,
        step.1 is Return,
        step.1->batch.entries@.len() == 0,
        step.1->batch.next_older_offset == None::<usize>,
        step.1->failure == Some(LookupError::Io),
{
    laws::law_phases_are_seen_as_they_are(step.0.phase);
}

/// A read that neither ends the log nor completes the line at the requested offset asks for the
/// next one, with what was read kept. Any other ends the lookup with the newest lines up to that
/// offset, each as the decoder computes it, at its place in the log.
pub proof fn law_read_call<P: Fn(&[u8]) -> Option<HistoryEntry>>(
    lookup: BatchLookup,
    chunk: &[u8],
    decode: &P,
    step: (BatchLookup, HistoryAction),
    f: spec_fn(Seq<u8>) -> Option<HistoryEntry>,
    lines: Seq<Seq<u8>>,
    tail: Seq<u8>,
)
    requires
        lookup.phase is Scanning,
        call_ensures(lookup_batch::<P>, (lookup, HistoryEvent::Read { chunk }, decode), step),
        forall|bytes: &[u8], found: Option<HistoryEntry>| #[trigger]
            call_ensures(*decode, (bytes,), found) ==> found == f(bytes@),
        lookup.phase->scan.consumed() + chunk@ == lines.flatten() + tail,
        lines.len() < usize::MAX,
        forall|k: int|
            0 <= k < lines.len() ==> (#[trigger] lines[k]).len() > 0 && lines[k].last() == 10,
        forall|k: int, i: int|
            0 <= k < lines.len() && 0 <= i < lines[k].len() - 1 ==> #[trigger] lines[k][i] != 10,
        forall|i: int| 0 <= i < tail.len() ==> #[trigger] tail[i] != 10,
    ensures
        step.0.request == lookup.request,
        lines.len() <= lookup.request.end_offset && chunk@.len() > 0 ==> step.1 is Read
            && step.0.phase is Scanning && step.0.phase->scan.consumed()
            == lookup.phase->scan.consumed() + chunk@,
        lines.len() > lookup.request.end_offset || chunk@.len() == 0 ==> {
            let all = if tail.len() == 0 || lines.len() > lookup.request.end_offset {
                lines
            } else {
                lines.push(tail)
            };
            let count = if lines.len() > lookup.request.end_offset {
                lookup.request.end_offset + 1
            } else {
                all.len() as int
            };
            let shown = step.1->batch.entries@.len() as int;
            let hidden = count - shown;
            &&& step.1 is Return
            &&& step.1->failure == None::<LookupError>
            &&& hidden >= 0
            &&& shown <= 128
            &&& count > 0 ==> shown > 0
            &&& shown > 1 ==> all.subrange(hidden, count).flatten().len() <= 65536
            &&& hidden > 0 ==> shown + 1 > 128 || all.subrange(hidden - 1, count).flatten().len()
                > 65536
            &&& hidden == 0 ==> step.1->batch.next_older_offset == None::<usize>
            &&& hidden > 0 ==> step.1->batch.next_older_offset is Some
                && step.1->batch.next_older_offset->0 == hidden - 1
            &&& forall|i: int|
                0 <= i < shown ==> (#[trigger] step.1->batch.entries@[i]).offset == count - 1 - i
            &&& forall|i: int|
                0 <= i < shown ==> (#[trigger] step.1->batch.entries@[i]).entry == f(
                    batch::record_body(all[count - 1 - i]),
                )
        },
{
    laws::law_phases_are_seen_as_they_are(step.0.phase);
    laws::law_reading_steps(
        lookup.request,
        lookup.phase->scan.consumed(),
        chunk@,
        lines,
        tail,
    );
    if lines.len() > lookup.request.end_offset || chunk@.len() == 0 {
        let all = if tail.len() == 0 || lines.len() > lookup.request.end_offset {
            lines
        } else {
            lines.push(tail)
        };
        let through = if lines.len() > lookup.request.end_offset {
            lines.take(lookup.request.end_offset + 1)
        } else {
            all
        };
        laws::law_batch_shows_the_newest_rows(step.1->batch, through, *decode, f);
        let count = through.len() as int;
        let hidden = count - step.1->batch.entries@.len();
        assert(through.skip(hidden) =~= all.subrange(hidden, count));
        if hidden > 0 {
            assert(through.skip(hidden - 1) =~= all.subrange(hidden - 1, count));
        }
        assert forall|i: int|
            0 <= i < step.1->batch.entries@.len() implies (
        #[trigger] step.1->batch.entries@[i]).entry == f(
            batch::record_body(all[count - 1 - i]),
        ) by {
            assert(through[count - 1 - i] == all[count - 1 - i]);
        }
    }
}

/// The outer step is the inner one, with an empty batch and a report in place of an error.
pub proof fn law_outer_call_follows_the_inner<P: Fn(&[u8]) -> Option<HistoryEntry>>(
    lookup: BatchLookup,
    event: HistoryEvent<'_>,
    decode: &P,
    outer: (BatchLookup, HistoryAction),
    inner: (BatchLookup, FileAction),
    f: spec_fn(Seq<u8>) -> Option<HistoryEntry>,
)
    requires
        call_ensures(lookup_batch::<P>, (lookup, event, decode), outer),
        call_ensures(lookup_batch_from_file::<P>, (lookup, event, decode), inner),
        forall|bytes: &[u8], found: Option<HistoryEntry>| #[trigger]
            call_ensures(*decode, (bytes,), found) ==> found == f(bytes@),
    ensures
        outer.0.phase@ == inner.0.phase@,
        outer.1 is TryLock <==> inner.1 is TryLock,
        outer.1 is Sleep <==> inner.1 is Sleep,
        outer.1 is Read <==> inner.1 is Read,
        outer.1 is Return <==> inner.1 is Finish,
        inner.1 is Finish && inner.1->result is Err ==> outer.1->failure == Some(
            inner.1->result->Err_0,
        ) && outer.1->batch.entries@.len() == 0 && outer.1->batch.next_older_offset
            == None::<usize>,
        inner.1 is Finish && inner.1->result is Ok ==> outer.1->failure == None::<LookupError>
            && outer.1->batch.entries@ == inner.1->result->Ok_0.entries@
            && outer.1->batch.next_older_offset == inner.1->result->Ok_0.next_older_offset,
{
    if inner.1 is Finish && inner.1->result is Ok {
        let one = outer.1->batch;
        let other = inner.1->result->Ok_0;
        assert(one.entries@.len() == other.entries@.len());
        assert forall|i: int| 0 <= i < one.entries@.len() implies one.entries@[i]
            == other.entries@[i] by {
            assert(one.entries@[i].offset == other.entries@[i].offset);
            assert(one.entries@[i].entry == other.entries@[i].entry);
        }
        assert(one.entries@ =~= other.entries@);
    }
}

} // verus!
