//! What holds of every lookup.

use vstd::prelude::*;

use super::batch;
use super::batch::{HistoryBatch, HistoryEntry, CARRIAGE_RETURN};
use super::lookup;
use super::lookup::{
    EventView, FileAction, HistoryAction, HistoryEvent, LookupError, LookupPhase, Outcome,
    PhaseView, Request,
};
use super::rows;
use super::rows::NEWLINE;
use super::scan;
use super::window;
use super::window::{MAX_BATCH_BYTES, MAX_BATCH_ROWS};

verus! {

/// A batch is bounded and makes progress: it holds at least the newest row where there is one, at
/// most `MAX_BATCH_ROWS` rows, and at most `MAX_BATCH_BYTES` bytes unless it is a single row.
pub proof fn law_window_is_bounded(all: Seq<Seq<u8>>)
    ensures
        all.len() > 0 ==> window::window(all).len() > 0 && window::window(all).last() == all.last(),
        window::window(all).len() <= MAX_BATCH_ROWS,
        window::window(all).len() > 1 ==> window::total_bytes(window::window(all))
            <= MAX_BATCH_BYTES,
{
    window::lemma_window_start_range(all);
}

/// A newest row over the byte cap is returned alone.
pub proof fn law_oversized_newest_row_is_alone(all: Seq<Seq<u8>>)
    requires
        all.len() > 0,
        all.last().len() > MAX_BATCH_BYTES,
    ensures
        window::window(all) == seq![all.last()],
{
    let start = all.len() - 1;
    if start > 0 {
        let pair = all.skip(start - 1);
        assert(pair =~= all.drop_last().skip(start - 1).push(all.last()));
        window::lemma_total_push(all.drop_last().skip(start - 1), all.last());
    }
    window::lemma_window_start_is(all, start);
    assert(all.skip(start) =~= seq![all.last()]);
}

/// A batch is as long as the caps allow: it covers every run of newest rows that is within them.
pub proof fn law_window_is_maximal(all: Seq<Seq<u8>>, start: int)
    requires
        0 <= start < all.len(),
        window::fits(all.skip(start)),
    ensures
        window::window_start(all) <= start,
{
    window::lemma_window_start_range(all);
    let found = window::window_start(all);
    if found > start {
        window::lemma_fits_skip(all, start, found - 1);
    }
}

/// A batch that ends at `end_offset` starts with that offset, or with the newest of a shorter log,
/// goes down by one from entry to entry, and ends at offset zero or just above
/// `next_older_offset`, which is lower than the offset that was asked for.
pub proof fn law_offsets_are_absolute<P: Fn(&[u8]) -> Option<HistoryEntry>>(
    batch: HistoryBatch,
    all: Seq<Seq<u8>>,
    end_offset: usize,
    decode: P,
)
    requires
        all.len() > 0,
        scan::ends_at_newest(batch, rows::through(all, end_offset as int), decode),
    ensures
        0 < batch.entries@.len() <= MAX_BATCH_ROWS,
        batch.entries@[0].offset == if end_offset < all.len() {
            end_offset as int
        } else {
            all.len() - 1
        },
        forall|i: int|
            0 < i < batch.entries@.len() ==> batch.entries@[i - 1].offset == (
            #[trigger] batch.entries@[i]).offset + 1,
        match batch.next_older_offset {
            Some(next) => batch.entries@.last().offset == next + 1 && next < end_offset,
            None => batch.entries@.last().offset == 0,
        },
{
    let through = rows::through(all, end_offset as int);
    law_window_is_bounded(through);
    window::lemma_window_start_range(through);
    let n = batch.entries@.len() as int;
    assert(batch.entries@[n - 1].offset == through.len() - n);
    assert(batch.entries@[0].offset == through.len() - 1);
    assert forall|i: int| 0 < i < n implies batch.entries@[i - 1].offset == (
    #[trigger] batch.entries@[i]).offset + 1 by {
        assert(batch.entries@[i - 1].offset == through.len() - i);
    }
}

/// A record that does not decode keeps its place: which offsets a batch covers, and where the next
/// one ends, is the same whatever the records decode to.
pub proof fn law_decoding_moves_no_offset<
    P: Fn(&[u8]) -> Option<HistoryEntry>,
    Q: Fn(&[u8]) -> Option<HistoryEntry>,
>(one: HistoryBatch, decode_one: P, other: HistoryBatch, decode_other: Q, all: Seq<Seq<u8>>)
    requires
        scan::ends_at_newest(one, all, decode_one),
        scan::ends_at_newest(other, all, decode_other),
    ensures
        one.entries@.len() == other.entries@.len(),
        forall|i: int|
            0 <= i < one.entries@.len() ==> (#[trigger] one.entries@[i]).offset
                == other.entries@[i].offset,
        one.next_older_offset == other.next_older_offset,
{
    assert forall|i: int| 0 <= i < one.entries@.len() implies (#[trigger] one.entries@[i]).offset
        == other.entries@[i].offset by {
        assert(other.entries@[i].offset == all.len() - 1 - i);
    }
}

/// The offsets from `newest` down to zero.
pub open spec fn descending(newest: int) -> Seq<int> {
    Seq::new((newest + 1) as nat, |i: int| newest - i)
}

/// The offsets that a reader sees who asks for the batch that ends at `end_offset` and then for
/// the one that ends at each `next_older_offset`.
pub open spec fn paged_offsets(all: Seq<Seq<u8>>, end_offset: int) -> Seq<int>
    decreases end_offset,
{
    let through = rows::through(all, end_offset);
    let start = window::window_start(through);
    let page = Seq::new((through.len() - start) as nat, |i: int| through.len() - 1 - i);
    if end_offset >= 0 && start > 0 {
        proof {
            window::lemma_window_start_range(through);
        }
        page + paged_offsets(all, start - 1)
    } else {
        page
    }
}

/// Following `next_older_offset` visits every row at or before the requested offset once, newest
/// first.
pub proof fn law_paging_covers_the_log(all: Seq<Seq<u8>>, end_offset: int)
    requires
        end_offset >= 0,
    ensures
        paged_offsets(all, end_offset) == descending(rows::through(all, end_offset).len() - 1),
    decreases end_offset,
{
    let through = rows::through(all, end_offset);
    let start = window::window_start(through);
    let page = Seq::new((through.len() - start) as nat, |i: int| through.len() - 1 - i);
    window::lemma_window_start_range(through);
    if start > 0 {
        law_paging_covers_the_log(all, start - 1);
        assert(page + descending(start - 1) =~= descending(through.len() - 1));
    } else {
        assert(page =~= descending(through.len() - 1));
    }
}

/// Once the row at the requested offset is complete, what is appended to the log changes nothing.
pub proof fn law_append_keeps_older_rows(bytes: Seq<u8>, more: Seq<u8>, end_offset: int)
    requires
        0 <= end_offset < rows::complete_rows(bytes).len(),
    ensures
        rows::through(rows::rows(bytes + more), end_offset) == rows::through(
            rows::rows(bytes),
            end_offset,
        ),
{
    rows::lemma_complete_rows_grow(bytes, more);
    let before = rows::complete_rows(bytes);
    let after = rows::complete_rows(bytes + more);
    assert forall|i: int| 0 <= i < before.len() implies before[i] == after[i] by {
        assert(after.take(before.len() as int)[i] == after[i]);
    }
    assert(rows::through(rows::rows(bytes), end_offset) =~= before.take(end_offset + 1));
    assert(rows::through(rows::rows(bytes + more), end_offset) =~= after.take(end_offset + 1));
    assert(before.take(end_offset + 1) =~= after.take(end_offset + 1));
}

/// The line ending, with or without a carriage return, is no part of the record.
pub proof fn law_line_ending_is_no_record(body: Seq<u8>)
    ensures
        batch::record_body(body.push(CARRIAGE_RETURN).push(NEWLINE)) == body,
        body.len() == 0 || body.last() != CARRIAGE_RETURN ==> batch::record_body(body.push(NEWLINE))
            == body,
{
    assert(body.push(CARRIAGE_RETURN).push(NEWLINE).drop_last() =~= body.push(CARRIAGE_RETURN));
    assert(body.push(CARRIAGE_RETURN).drop_last() =~= body);
    assert(body.push(NEWLINE).drop_last() =~= body);
}

impl Request {
    /// Where a lookup stands after the events.
    pub open spec fn run(self, phase: PhaseView, events: Seq<EventView>) -> PhaseView
        decreases events.len(),
    {
        if events.len() == 0 {
            phase
        } else {
            self.run(self.advance(phase, events[0]), events.skip(1))
        }
    }
}

/// Attempts that find the log locked, each with the pause that follows it.
pub open spec fn busy_rounds(count: nat) -> Seq<EventView>
    decreases count,
{
    if count == 0 {
        Seq::empty()
    } else {
        seq![EventView::LockBusy, EventView::Slept] + busy_rounds((count - 1) as nat)
    }
}

/// Reads of the chunks, then of the end of the log.
pub open spec fn reads_to_end(chunks: Seq<Seq<u8>>) -> Seq<EventView> {
    chunks.map_values(|chunk: Seq<u8>| EventView::Read { chunk }).push(
        EventView::Read { chunk: Seq::empty() },
    )
}

proof fn lemma_run_append(
    request: Request,
    phase: PhaseView,
    first: Seq<EventView>,
    then: Seq<EventView>,
)
    ensures
        request.run(phase, first + then) == request.run(request.run(phase, first), then),
    decreases first.len(),
{
    if first.len() == 0 {
        assert(first + then =~= then);
    } else {
        assert((first + then).skip(1) =~= first.skip(1) + then);
        lemma_run_append(request, request.advance(phase, first[0]), first.skip(1), then);
    }
}

/// A lookup that has ended stays as it is.
pub proof fn law_finished_stays(request: Request, outcome: Outcome, events: Seq<EventView>)
    ensures
        request.run(PhaseView::Finished { outcome }, events) == (PhaseView::Finished { outcome }),
    decreases events.len(),
{
    if events.len() > 0 {
        law_finished_stays(request, outcome, events.skip(1));
    }
}

proof fn lemma_busy(request: Request, attempts: nat, count: nat)
    requires
        count <= attempts,
    ensures
        request.run(request.try_lock(attempts), busy_rounds(count)) == request.try_lock(
            (attempts - count) as nat,
        ),
    decreases count,
{
    if count > 0 {
        let rest = busy_rounds((count - 1) as nat);
        let events = busy_rounds(count);
        let sleeping = PhaseView::Sleeping { attempts: (attempts - 1) as nat };
        assert(events.skip(1) =~= seq![EventView::Slept] + rest);
        assert(events.skip(1).skip(1) =~= rest);
        assert(request.advance(request.try_lock(attempts), events[0]) == sleeping);
        assert(request.run(sleeping, events.skip(1)) == request.run(
            request.advance(sleeping, EventView::Slept),
            rest,
        ));
        lemma_busy(request, (attempts - 1) as nat, (count - 1) as nat);
    }
}

proof fn lemma_reads(request: Request, consumed: Seq<u8>, chunks: Seq<Seq<u8>>)
    requires
        !request.has_end_row(consumed),
        forall|i: int| 0 <= i < chunks.len() ==> (#[trigger] chunks[i]).len() > 0,
    ensures
        request.run(PhaseView::Scanning { consumed }, reads_to_end(chunks)) == request.outcome_of(
            consumed + chunks.flatten(),
        ),
    decreases chunks.len(),
{
    let events = reads_to_end(chunks);
    let phase = PhaseView::Scanning { consumed };
    if chunks.len() == 0 {
        assert(events.skip(1) =~= Seq::<EventView>::empty());
        assert(request.run(request.advance(phase, events[0]), events.skip(1)) == request.advance(
            phase,
            events[0],
        ));
        assert(consumed + Seq::<u8>::empty() =~= consumed + chunks.flatten());
    } else {
        let now = consumed + chunks[0];
        let rest = chunks.drop_first();
        assert(events.skip(1) =~= reads_to_end(rest));
        assert(events[0] == (EventView::Read { chunk: chunks[0] }));
        assert(now + rest.flatten() =~= consumed + chunks.flatten());
        if request.has_end_row(now) {
            law_append_keeps_older_rows(now, rest.flatten(), request.end_offset as int);
            let through = rows::through(rows::rows(now), request.end_offset as int);
            law_finished_stays(request, Outcome::Rows { through }, reads_to_end(rest));
        } else {
            assert forall|i: int| 0 <= i < rest.len() implies (#[trigger] rest[i]).len() > 0 by {
                assert(rest[i] == chunks[i + 1]);
            }
            lemma_reads(request, now, rest);
        }
    }
}

/// A lookup of the right log that gets the lock in one of its attempts ends with the rows of the
/// log through the requested offset, however often the lock was busy before, and however the log
/// was cut into chunks.
pub proof fn law_lookup_finds_the_requested_rows(
    request: Request,
    identity: Option<u64>,
    busy: nat,
    chunks: Seq<Seq<u8>>,
)
    requires
        request.accepts(identity),
        busy < request.max_retries,
        forall|i: int| 0 <= i < chunks.len() ==> (#[trigger] chunks[i]).len() > 0,
    ensures
        request.run(
            PhaseView::Opening,
            seq![EventView::Opened { identity }] + busy_rounds(busy) + seq![EventView::Locked]
                + reads_to_end(chunks),
        ) == request.outcome_of(chunks.flatten()),
{
    let opened = seq![EventView::Opened { identity }];
    let locked = seq![EventView::Locked];
    let attempts = request.max_retries as nat;
    let left = (attempts - busy) as nat;
    let empty = Seq::<u8>::empty();
    lemma_run_append(
        request,
        PhaseView::Opening,
        opened + busy_rounds(busy) + locked,
        reads_to_end(chunks),
    );
    lemma_run_append(request, PhaseView::Opening, opened + busy_rounds(busy), locked);
    lemma_run_append(request, PhaseView::Opening, opened, busy_rounds(busy));
    lemma_run_one(request, PhaseView::Opening, EventView::Opened { identity });
    lemma_busy(request, attempts, busy);
    lemma_run_one(request, request.try_lock(left), EventView::Locked);
    assert(rows::complete_rows(empty).len() == 0);
    lemma_reads(request, empty, chunks);
    assert(empty + chunks.flatten() =~= chunks.flatten());
}

proof fn lemma_run_one(request: Request, phase: PhaseView, event: EventView)
    ensures
        request.run(phase, seq![event]) == request.advance(phase, event),
{
    assert(seq![event].skip(1) =~= Seq::<EventView>::empty());
    assert(request.run(request.advance(phase, event), seq![event].skip(1)) == request.advance(
        phase,
        event,
    ));
}

/// Where the reads cut the log makes no difference.
pub proof fn law_chunking_is_irrelevant(
    request: Request,
    one: Seq<Seq<u8>>,
    other: Seq<Seq<u8>>,
)
    requires
        forall|i: int| 0 <= i < one.len() ==> (#[trigger] one[i]).len() > 0,
        forall|i: int| 0 <= i < other.len() ==> (#[trigger] other[i]).len() > 0,
        one.flatten() == other.flatten(),
    ensures
        request.run(PhaseView::Scanning { consumed: Seq::empty() }, reads_to_end(one))
            == request.run(PhaseView::Scanning { consumed: Seq::empty() }, reads_to_end(other)),
{
    assert(rows::complete_rows(Seq::<u8>::empty()).len() == 0);
    lemma_reads(request, Seq::empty(), one);
    lemma_reads(request, Seq::empty(), other);
}

/// A lookup that finds another log than the one that was asked for ends at once, whatever
/// follows.
pub proof fn law_wrong_log_is_refused(
    request: Request,
    identity: Option<u64>,
    events: Seq<EventView>,
)
    requires
        !request.accepts(identity),
    ensures
        request.run(PhaseView::Opening, seq![EventView::Opened { identity }] + events) == (
        PhaseView::Finished { outcome: Outcome::WrongLog }),
{
    lemma_run_append(
        request,
        PhaseView::Opening,
        seq![EventView::Opened { identity }],
        events,
    );
    lemma_run_one(request, PhaseView::Opening, EventView::Opened { identity });
    law_finished_stays(request, Outcome::WrongLog, events);
}

/// A lookup whose every attempt finds the log locked gives up after the last, and not before.
pub proof fn law_lock_attempts_are_bounded(request: Request, identity: Option<u64>, busy: nat)
    requires
        request.accepts(identity),
        busy <= request.max_retries,
    ensures
        request.run(
            PhaseView::Opening,
            seq![EventView::Opened { identity }] + busy_rounds(busy),
        ) == if busy == request.max_retries {
            PhaseView::Finished {
                outcome: Outcome::GaveUp { error: LookupError::LockUnavailable },
            }
        } else {
            PhaseView::Locking { attempts: (request.max_retries - busy) as nat }
        },
{
    lemma_run_append(
        request,
        PhaseView::Opening,
        seq![EventView::Opened { identity }],
        busy_rounds(busy),
    );
    lemma_run_one(request, PhaseView::Opening, EventView::Opened { identity });
    lemma_busy(request, request.max_retries as nat, busy);
}

/// Whether the lookup has got as far as reading the log.
pub open spec fn has_read(phase: PhaseView) -> bool {
    match phase {
        PhaseView::Scanning { .. } => true,
        PhaseView::Finished { outcome } => outcome is Rows,
        _ => false,
    }
}

/// A log is read only when it is the one that was asked for, and only once the lock is held: both
/// were reported, in this order.
pub proof fn law_reading_needs_the_log_and_the_lock(request: Request, events: Seq<EventView>)
    requires
        has_read(request.run(PhaseView::Opening, events)),
    ensures
        exists|i: int, j: int|
            0 <= i < j < events.len() && (#[trigger] events[i] matches EventView::Opened {
                identity,
            } && request.accepts(identity)) && #[trigger] events[j] is Locked,
    decreases events.len(),
{
    let next = request.advance(PhaseView::Opening, events[0]);
    let rest = events.skip(1);
    if next is Opening {
        law_reading_needs_the_log_and_the_lock(request, rest);
        let (i, j) = choose|i: int, j: int|
            0 <= i < j < rest.len() && (#[trigger] rest[i] matches EventView::Opened { identity }
                && request.accepts(identity)) && #[trigger] rest[j] is Locked;
        assert(events[i + 1] == rest[i]);
        assert(events[j + 1] == rest[j]);
    } else if next is Finished {
        law_finished_stays(request, next->outcome, rest);
    } else {
        lemma_reading_needs_the_lock(request, next, rest);
        let j = choose|j: int| 0 <= j < rest.len() && #[trigger] rest[j] is Locked;
        assert(events[j + 1] == rest[j]);
        assert(events[0] matches EventView::Opened { identity } && request.accepts(identity));
    }
}

proof fn lemma_reading_needs_the_lock(request: Request, phase: PhaseView, events: Seq<EventView>)
    requires
        phase is Locking || phase is Sleeping,
        has_read(request.run(phase, events)),
    ensures
        exists|j: int| 0 <= j < events.len() && #[trigger] events[j] is Locked,
    decreases events.len(),
{
    let next = request.advance(phase, events[0]);
    let rest = events.skip(1);
    if next is Scanning {
        assert(events[0] is Locked);
    } else if next is Finished {
        law_finished_stays(request, next->outcome, rest);
    } else {
        lemma_reading_needs_the_lock(request, next, rest);
        let j = choose|j: int| 0 <= j < rest.len() && #[trigger] rest[j] is Locked;
        assert(events[j + 1] == rest[j]);
    }
}

/// The lock is taken once: a lookup that reads never goes back to locking.
pub proof fn law_lock_is_taken_once(request: Request, consumed: Seq<u8>, events: Seq<EventView>)
    ensures
        ({
            let phase = request.run(PhaseView::Scanning { consumed }, events);
            phase is Scanning || phase is Finished
        }),
    decreases events.len(),
{
    if events.len() > 0 {
        match request.advance(PhaseView::Scanning { consumed }, events[0]) {
            PhaseView::Scanning { consumed: now } => {
                law_lock_is_taken_once(request, now, events.skip(1));
            },
            PhaseView::Finished { outcome } => {
                law_finished_stays(request, outcome, events.skip(1));
            },
            _ => {},
        }
    }
}

/// A batch that ends at the newest of the rows shows the newest of them, at most 128 rows and at
/// most 65536 bytes unless it is one row, and no row more would be within both; an entry has the
/// index of its row as its offset and is what the decoder computes for the record of that row; and
/// the next older offset is that of the newest row that is not shown.
pub proof fn law_batch_shows_the_newest_rows<P: Fn(&[u8]) -> Option<HistoryEntry>>(
    batch: HistoryBatch,
    all: Seq<Seq<u8>>,
    decode: P,
    f: spec_fn(Seq<u8>) -> Option<HistoryEntry>,
)
    requires
        all.len() <= usize::MAX,
        scan::ends_at_newest(batch, all, decode),
        forall|raw: &[u8], found: Option<HistoryEntry>| #[trigger]
            call_ensures(decode, (raw,), found) ==> found == f(raw@),
    ensures
        ({
            let shown = batch.entries@.len() as int;
            let hidden = all.len() - shown;
            &&& hidden >= 0
            &&& shown <= 128
            &&& all.len() > 0 ==> shown > 0
            &&& shown > 1 ==> all.skip(hidden).flatten().len() <= 65536
            &&& hidden > 0 ==> shown + 1 > 128 || all.skip(hidden - 1).flatten().len() > 65536
            &&& hidden == 0 ==> batch.next_older_offset == None::<usize>
            &&& hidden > 0 ==> batch.next_older_offset is Some && batch.next_older_offset->0
                == hidden - 1
        }),
        forall|i: int|
            0 <= i < batch.entries@.len() ==> (#[trigger] batch.entries@[i]).offset == all.len() - 1
                - i,
        forall|i: int|
            0 <= i < batch.entries@.len() ==> (#[trigger] batch.entries@[i]).entry == f(
                batch::record_body(all[batch.entries@[i].offset as int]),
            ),
{
    window::law_window_is_the_longest_within_the_caps(all);
    assert forall|i: int| 0 <= i < batch.entries@.len() implies (
    #[trigger] batch.entries@[i]).entry == f(
        batch::record_body(all[batch.entries@[i].offset as int]),
    ) by {
        batch::law_decoding_is_the_decoder(
            decode,
            f,
            batch::record_body(all[all.len() - 1 - i]),
            batch.entries@[i].entry,
        );
    }
}

/// What the host reports is taken as reported.
pub proof fn law_events_are_taken_as_reported(event: HistoryEvent<'_>)
    ensures
        match event {
            HistoryEvent::Opened { identity } => event@ == (EventView::Opened { identity }),
            HistoryEvent::Locked => event@ == EventView::Locked,
            HistoryEvent::LockBusy => event@ == EventView::LockBusy,
            HistoryEvent::Slept => event@ == EventView::Slept,
            HistoryEvent::Read { chunk } => event@ == (EventView::Read { chunk: chunk@ }),
            HistoryEvent::Failed => event@ == EventView::Failed,
        },
{
}

/// A phase is seen as what it holds.
pub proof fn law_phases_are_seen_as_they_are(phase: LookupPhase)
    ensures
        match phase {
            LookupPhase::Opening => phase@ == PhaseView::Opening,
            LookupPhase::Locking { attempts } => phase@ is Locking && phase@->Locking_attempts
                == attempts,
            LookupPhase::Sleeping { attempts } => phase@ is Sleeping && phase@->Sleeping_attempts
                == attempts,
            LookupPhase::Scanning { scan } => phase@ is Scanning && phase@->consumed
                == scan.consumed(),
            LookupPhase::Finished { outcome } => phase@ is Finished && phase@->outcome == outcome@,
        },
{
}

/// Each action has its own results: opening a file gives an open file, an attempt to lock a lock
/// or a busy lock, a pause its end, a read some bytes; all but the pause can fail. After the end
/// nothing is expected.
pub proof fn law_expected_events(request: Request, phase: PhaseView, event: EventView)
    ensures
        request.expects(phase, event) == match event {
            EventView::Opened { .. } => phase is Opening,
            EventView::Locked => phase is Locking,
            EventView::LockBusy => phase is Locking,
            EventView::Slept => phase is Sleeping,
            EventView::Read { .. } => phase is Scanning,
            EventView::Failed => phase is Opening || phase is Locking || phase is Scanning,
        },
{
}

/// A nonzero log ID is refused by every other identity and by a log without one: the lookup ends
/// at once with an empty batch and no failure. Log ID zero, and the identity that was asked for,
/// go on to the lock, with all attempts left.
pub proof fn law_identity_decides<P: Fn(&[u8]) -> Option<HistoryEntry>>(
    log_id: u64,
    end_offset: usize,
    max_retries: usize,
    identity: Option<u64>,
    action: HistoryAction,
    decode: P,
)
    requires
        ({
            let request = Request { log_id, end_offset, max_retries };
            lookup::asks(
                request.advance(PhaseView::Opening, EventView::Opened { identity }),
                action,
                decode,
            )
        }),
    ensures
        ({
            let request = Request { log_id, end_offset, max_retries };
            let next = request.advance(PhaseView::Opening, EventView::Opened { identity });
            let same = identity is Some && identity->0 == log_id;
            &&& log_id != 0 && !same ==> {
                &&& next == (PhaseView::Finished { outcome: Outcome::WrongLog })
                &&& action is Return
                &&& action->batch.entries@.len() == 0
                &&& action->batch.next_older_offset == None::<usize>
                &&& action->failure == None::<LookupError>
            }
            &&& (log_id == 0 || same) && max_retries > 0 ==> {
                &&& next == (PhaseView::Locking { attempts: max_retries as nat })
                &&& action is TryLock
            }
            &&& (log_id == 0 || same) && max_retries == 0 ==> {
                &&& action is Return
                &&& action->batch.entries@.len() == 0
                &&& action->batch.next_older_offset == None::<usize>
                &&& action->failure == Some(LookupError::LockUnavailable)
            }
            &&& request.accepts(identity) <==> log_id == 0 || same
        }),
{
}

/// A lock that is held starts the reading, from nothing; a busy one costs one attempt and a pause,
/// after which the next attempt follows, or the end where none is left; and a failure of any action
/// is the end.
pub proof fn law_locking_steps(request: Request, attempts: nat, consumed: Seq<u8>)
    ensures
        request.advance(PhaseView::Locking { attempts }, EventView::Locked) == (
        PhaseView::Scanning { consumed: Seq::<u8>::empty() }),
        attempts > 0 ==> request.advance(PhaseView::Locking { attempts }, EventView::LockBusy) == (
        PhaseView::Sleeping { attempts: (attempts - 1) as nat }),
        attempts > 0 ==> request.advance(PhaseView::Sleeping { attempts }, EventView::Slept) == (
        PhaseView::Locking { attempts }),
        request.advance(PhaseView::Sleeping { attempts: 0 }, EventView::Slept) == (
        PhaseView::Finished { outcome: Outcome::GaveUp { error: LookupError::LockUnavailable } }),
        request.advance(PhaseView::Opening, EventView::Failed) == (PhaseView::Finished {
            outcome: Outcome::GaveUp { error: LookupError::Io },
        }),
        request.advance(PhaseView::Locking { attempts }, EventView::Failed) == (
        PhaseView::Finished { outcome: Outcome::GaveUp { error: LookupError::Io } }),
        request.advance(PhaseView::Scanning { consumed }, EventView::Failed) == (
        PhaseView::Finished { outcome: Outcome::GaveUp { error: LookupError::Io } }),
{
}

/// A read of some bytes goes on while the log so far has no more complete lines than the requested
/// offset has older ones; the read that completes the line at that offset is the end, with the
/// lines up to and with it. The lines are those that were written: each ends in byte 10 and holds
/// no other.
pub proof fn law_reading_steps(
    request: Request,
    consumed: Seq<u8>,
    chunk: Seq<u8>,
    lines: Seq<Seq<u8>>,
    tail: Seq<u8>,
)
    requires
        consumed + chunk == lines.flatten() + tail,
        forall|k: int|
            0 <= k < lines.len() ==> (#[trigger] lines[k]).len() > 0 && lines[k].last() == 10,
        forall|k: int, i: int|
            0 <= k < lines.len() && 0 <= i < lines[k].len() - 1 ==> #[trigger] lines[k][i] != 10,
        forall|i: int| 0 <= i < tail.len() ==> #[trigger] tail[i] != 10,
    ensures
        ({
            let next = request.advance(
                PhaseView::Scanning { consumed },
                EventView::Read { chunk },
            );
            &&& lines.len() <= request.end_offset && chunk.len() > 0 ==> next == (
            PhaseView::Scanning { consumed: consumed + chunk })
            &&& lines.len() > request.end_offset ==> next == (PhaseView::Finished {
                outcome: Outcome::Rows { through: lines.take(request.end_offset + 1) },
            })
            &&& lines.len() <= request.end_offset && chunk.len() == 0 && tail.len() == 0 ==> next
                == (PhaseView::Finished { outcome: Outcome::Rows { through: lines } })
            &&& lines.len() <= request.end_offset && chunk.len() == 0 && tail.len() > 0 ==> next
                == (PhaseView::Finished { outcome: Outcome::Rows { through: lines.push(tail) } })
        }),
{
    rows::law_written_lines_are_the_rows(lines, tail);
    assert(lines.take(lines.len() as int) =~= lines);
    assert(lines.push(tail).take(request.end_offset + 1) =~= lines.take(request.end_offset + 1)
        || lines.len() <= request.end_offset);
}

/// Each phase asks for its own action. A lookup that ended hands out what it ended with: the batch
/// of its rows, nothing for a wrong log, and nothing but the reason where it gave up.
pub proof fn law_actions_follow_the_phase<P: Fn(&[u8]) -> Option<HistoryEntry>>(
    phase: PhaseView,
    action: HistoryAction,
    file_action: FileAction,
    decode: P,
)
    requires
        lookup::asks(phase, action, decode),
        lookup::asks_file(phase, file_action, decode),
    ensures
        !(phase is Opening),
        phase is Locking ==> action is TryLock && file_action is TryLock,
        phase is Sleeping ==> action is Sleep && file_action is Sleep,
        phase is Scanning ==> action is Read && file_action is Read,
        phase is Finished ==> action is Return && file_action is Finish,
        phase is Finished && phase->outcome is WrongLog ==> {
            &&& action->batch.entries@.len() == 0
            &&& action->batch.next_older_offset == None::<usize>
            &&& action->failure == None::<LookupError>
            &&& file_action->result is Ok
            &&& file_action->result->Ok_0.entries@.len() == 0
            &&& file_action->result->Ok_0.next_older_offset == None::<usize>
        },
        phase is Finished && phase->outcome is GaveUp ==> {
            &&& action->batch.entries@.len() == 0
            &&& action->batch.next_older_offset == None::<usize>
            &&& action->failure == Some(phase->outcome->error)
            &&& file_action->result is Err
            &&& file_action->result->Err_0 == phase->outcome->error
        },
        phase is Finished && phase->outcome is Rows ==> {
            &&& action->failure == None::<LookupError>
            &&& scan::ends_at_newest(action->batch, phase->outcome->through, decode)
            &&& file_action->result is Ok
            &&& scan::ends_at_newest(
                file_action->result->Ok_0,
                phase->outcome->through,
                decode,
            )
        },
{
}

/// A lookup gives back what was written. Where records without byte 10 were written to a log, each
/// ended by byte 10, or by bytes 13 and 10 where `crlf` says so, a lookup of that log that gets
/// the lock returns the newest records at or before the requested offset, each at its place in the
/// order of writing and as the decoder computes it from the bytes that were written.
pub proof fn law_lookup_gives_back_the_written_records<P: Fn(&[u8]) -> Option<HistoryEntry>>(
    request: Request,
    identity: Option<u64>,
    busy: nat,
    chunks: Seq<Seq<u8>>,
    records: Seq<Seq<u8>>,
    crlf: Seq<bool>,
    lines: Seq<Seq<u8>>,
    decode: P,
    f: spec_fn(Seq<u8>) -> Option<HistoryEntry>,
    action: HistoryAction,
)
    requires
        request.log_id == 0 || identity == Some(request.log_id),
        busy < request.max_retries,
        forall|i: int| 0 <= i < chunks.len() ==> (#[trigger] chunks[i]).len() > 0,
        chunks.flatten() == lines.flatten(),
        lines.len() == records.len(),
        lines.len() == crlf.len(),
        lines.len() <= usize::MAX,
        forall|k: int|
            0 <= k < lines.len() ==> #[trigger] lines[k] == if crlf[k] {
                records[k] + seq![13u8, 10u8]
            } else {
                records[k] + seq![10u8]
            },
        forall|k: int, i: int|
            0 <= k < records.len() && 0 <= i < records[k].len() ==> #[trigger] records[k][i] != 10,
        forall|k: int|
            0 <= k < records.len() && !crlf[k] && records[k].len() > 0 ==> (
            #[trigger] records[k]).last() != 13,
        forall|raw: &[u8], found: Option<HistoryEntry>| #[trigger]
            call_ensures(decode, (raw,), found) ==> found == f(raw@),
        lookup::asks(
            request.run(
                PhaseView::Opening,
                seq![EventView::Opened { identity }] + busy_rounds(busy) + seq![EventView::Locked]
                    + reads_to_end(chunks),
            ),
            action,
            decode,
        ),
    ensures
        action is Return,
        action->failure == None::<LookupError>,
        ({
            let batch = action->batch;
            let count = if request.end_offset < lines.len() {
                request.end_offset + 1
            } else {
                lines.len() as int
            };
            let shown = batch.entries@.len() as int;
            let hidden = count - shown;
            &&& hidden >= 0
            &&& shown <= 128
            &&& count > 0 ==> shown > 0
            &&& shown > 1 ==> lines.subrange(hidden, count).flatten().len() <= 65536
            &&& hidden > 0 ==> shown + 1 > 128 || lines.subrange(hidden - 1, count).flatten().len()
                > 65536
            &&& hidden == 0 ==> batch.next_older_offset == None::<usize>
            &&& hidden > 0 ==> batch.next_older_offset is Some && batch.next_older_offset->0
                == hidden - 1
            &&& forall|i: int|
                0 <= i < shown ==> (#[trigger] batch.entries@[i]).offset == count - 1 - i
            &&& forall|i: int|
                0 <= i < shown ==> (#[trigger] batch.entries@[i]).entry == f(records[count - 1 - i])
        }),
{
    assert forall|k: int| 0 <= k < lines.len() implies (#[trigger] lines[k]).len() > 0
        && lines[k].last() == 10 by {}
    assert forall|k: int, i: int|
        0 <= k < lines.len() && 0 <= i < lines[k].len() - 1 implies #[trigger] lines[k][i] != 10 by {
        if i < records[k].len() {
            assert(lines[k][i] == records[k][i]);
        } else {
            assert(lines[k][i] == 13);
        }
    }
    let tail = Seq::<u8>::empty();
    rows::law_written_lines_are_the_rows(lines, tail);
    assert(lines.flatten() + tail =~= lines.flatten());
    law_lookup_finds_the_requested_rows(request, identity, busy, chunks);
    let through = rows::through(lines, request.end_offset as int);
    let batch = action->batch;
    rows::law_through_keeps_the_oldest(lines, request.end_offset as int);
    law_batch_shows_the_newest_rows(batch, through, decode, f);
    let count = through.len() as int;
    let shown = batch.entries@.len() as int;
    let hidden = count - shown;
    assert(through.skip(hidden) =~= lines.subrange(hidden, count));
    if hidden > 0 {
        assert(through.skip(hidden - 1) =~= lines.subrange(hidden - 1, count));
    }
    assert forall|i: int| 0 <= i < shown implies (#[trigger] batch.entries@[i]).entry == f(
        records[count - 1 - i],
    ) by {
        let k = count - 1 - i;
        assert(through[k] == lines[k]);
        batch::law_record_is_the_row_without_its_ending(lines[k]);
        if crlf[k] {
            assert(lines[k].take(lines[k].len() - 2) =~= records[k]);
        } else {
            assert(lines[k].take(lines[k].len() - 1) =~= records[k]);
            assert(records[k].len() > 0 ==> lines[k][lines[k].len() - 2] == records[k].last());
        }
    }
}

} // verus!
