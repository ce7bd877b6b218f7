//! The bounded lookup as a machine that the host drives.
//!
//! The host opens the log, then performs the action that the machine asks for and reports what
//! came of it, until the machine returns a batch. The file is opened, identity-checked and
//! shared-locked once, and read forward.

use vstd::prelude::*;

use super::batch;
use super::batch::{HistoryBatch, HistoryEntry};
use super::rows;
use super::scan;
use super::scan::{scan_batch, BatchScan};

verus! {

/// Why a lookup gave up.
#[derive(Clone, Copy, Debug, PartialEq, Eq, Structural)]
pub enum LookupError {
    /// The log could not be opened, inspected, locked or read.
    Io,
    /// Every attempt to lock the log found it locked by another.
    LockUnavailable,
}

/// What the host reports.
pub enum HistoryEvent<'a> {
    /// The log is open. The identity is that of the open file, where the host has one for it.
    Opened { identity: Option<u64> },
    /// The shared lock is held.
    Locked,
    /// Another holds a lock that excludes the shared one.
    LockBusy,
    /// The pause between two attempts is over.
    Slept,
    /// The next bytes of the log; none at its end.
    Read { chunk: &'a [u8] },
    /// The action failed in another way.
    Failed,
}

/// What the host does next.
#[derive(Debug, PartialEq)]
pub enum FileAction {
    /// Try once to take the shared lock.
    TryLock,
    /// Pause before the next attempt.
    Sleep,
    /// Read the next bytes.
    Read,
    /// Nothing: the lookup is over.
    Finish { result: Result<HistoryBatch, LookupError> },
}

/// What the host does next, or the batch that it hands to its caller.
#[derive(Debug, PartialEq)]
pub enum HistoryAction {
    /// Try once to take the shared lock.
    TryLock,
    /// Pause before the next attempt.
    Sleep,
    /// Read the next bytes.
    Read,
    /// Hand `batch` to the caller. Where the lookup gave up, `failure` says why, for the host to
    /// report.
    Return { batch: HistoryBatch, failure: Option<LookupError> },
}

/// A `HistoryEvent` with the bytes that were read as a sequence.
pub enum EventView {
    Opened { identity: Option<u64> },
    Locked,
    LockBusy,
    Slept,
    Read { chunk: Seq<u8> },
    Failed,
}

/// How a lookup ends.
pub enum Outcome {
    /// The open file is not the log that was asked for.
    WrongLog,
    GaveUp { error: LookupError },
    /// The rows of the log from the oldest through the requested offset.
    Rows { through: Seq<Seq<u8>> },
}

/// Where a lookup stands.
pub enum PhaseView {
    Opening,
    /// An attempt to lock is under way, the first of `attempts` that are left.
    Locking { attempts: nat },
    /// An attempt has failed, and `attempts` are left after the pause.
    Sleeping { attempts: nat },
    /// The lock is held and `consumed` has been read.
    Scanning { consumed: Seq<u8> },
    Finished { outcome: Outcome },
}

/// What a lookup is asked for.
pub struct Request {
    /// The identity that the log must have; zero accepts any.
    pub log_id: u64,
    /// The absolute offset that the batch ends at.
    pub end_offset: usize,
    /// How often the lock is tried.
    pub max_retries: usize,
}

pub enum LookupPhase {
    Opening,
    Locking { attempts: usize },
    Sleeping { attempts: usize },
    Scanning { scan: BatchScan },
    Finished { outcome: Ghost<Outcome> },
}

/// A lookup under way.
pub struct BatchLookup {
    pub request: Request,
    pub phase: LookupPhase,
}

impl<'a> View for HistoryEvent<'a> {
    type V = EventView;

    open spec fn view(&self) -> EventView {
        match *self {
            HistoryEvent::Opened { identity } => EventView::Opened { identity },
            HistoryEvent::Locked => EventView::Locked,
            HistoryEvent::LockBusy => EventView::LockBusy,
            HistoryEvent::Slept => EventView::Slept,
            HistoryEvent::Read { chunk } => EventView::Read { chunk: chunk@ },
            HistoryEvent::Failed => EventView::Failed,
        }
    }
}

impl View for LookupPhase {
    type V = PhaseView;

    open spec fn view(&self) -> PhaseView {
        match *self {
            LookupPhase::Opening => PhaseView::Opening,
            LookupPhase::Locking { attempts } => PhaseView::Locking { attempts: attempts as nat },
            LookupPhase::Sleeping { attempts } => PhaseView::Sleeping { attempts: attempts as nat },
            LookupPhase::Scanning { scan } => PhaseView::Scanning { consumed: scan.consumed() },
            LookupPhase::Finished { outcome } => PhaseView::Finished { outcome: outcome@ },
        }
    }
}

impl Request {
    /// Whether a log with this identity is the one that was asked for. A log without an identity
    /// counts as one with identity zero.
    pub open spec fn accepts(self, identity: Option<u64>) -> bool {
        let current: u64 = match identity {
            Some(id) => id,
            None => 0,
        };
        self.log_id == 0 || current == self.log_id
    }

    /// Whether a scan that has read `consumed` has all it needs.
    pub open spec fn has_end_row(self, consumed: Seq<u8>) -> bool {
        rows::complete_rows(consumed).len() > self.end_offset
    }

    /// How a lookup ends that has read `consumed` of the log.
    pub open spec fn outcome_of(self, consumed: Seq<u8>) -> PhaseView {
        PhaseView::Finished {
            outcome: Outcome::Rows {
                through: rows::through(rows::rows(consumed), self.end_offset as int),
            },
        }
    }

    /// Where a lookup goes before an attempt to lock, with `attempts` left.
    pub open spec fn try_lock(self, attempts: nat) -> PhaseView {
        if attempts == 0 {
            PhaseView::Finished {
                outcome: Outcome::GaveUp { error: LookupError::LockUnavailable },
            }
        } else {
            PhaseView::Locking { attempts }
        }
    }

    /// Whether the event can be what came of the action that the phase asked for.
    pub open spec fn expects(self, phase: PhaseView, event: EventView) -> bool {
        match phase {
            PhaseView::Opening => event is Opened || event is Failed,
            PhaseView::Locking { .. } => event is Locked || event is LockBusy || event is Failed,
            PhaseView::Sleeping { .. } => event is Slept,
            PhaseView::Scanning { .. } => event is Read || event is Failed,
            PhaseView::Finished { .. } => false,
        }
    }

    /// Where a lookup stands after an event. An event that the phase does not expect changes
    /// nothing.
    pub open spec fn advance(self, phase: PhaseView, event: EventView) -> PhaseView {
        if !self.expects(phase, event) {
            phase
        } else {
            match (phase, event) {
                (_, EventView::Failed) => PhaseView::Finished {
                    outcome: Outcome::GaveUp { error: LookupError::Io },
                },
                (PhaseView::Opening, EventView::Opened { identity }) => if self.accepts(identity) {
                    self.try_lock(self.max_retries as nat)
                } else {
                    PhaseView::Finished { outcome: Outcome::WrongLog }
                },
                (PhaseView::Locking { .. }, EventView::Locked) => PhaseView::Scanning {
                    consumed: Seq::empty(),
                },
                (PhaseView::Locking { attempts }, EventView::LockBusy) => PhaseView::Sleeping {
                    attempts: (attempts - 1) as nat,
                },
                (PhaseView::Sleeping { attempts }, EventView::Slept) => self.try_lock(attempts),
                (PhaseView::Scanning { consumed }, EventView::Read { chunk }) => {
                    let now = consumed + chunk;
                    if chunk.len() == 0 || self.has_end_row(now) {
                        self.outcome_of(now)
                    } else {
                        PhaseView::Scanning { consumed: now }
                    }
                },
                _ => phase,
            }
        }
    }
}

/// Whether the action is what the phase asks for, and a batch that it carries is the batch of the
/// rows that the lookup ended with.
pub open spec fn asks_file<P: Fn(&[u8]) -> Option<HistoryEntry>>(
    phase: PhaseView,
    action: FileAction,
    decode: P,
) -> bool {
    match phase {
        PhaseView::Opening => false,
        PhaseView::Locking { .. } => action is TryLock,
        PhaseView::Sleeping { .. } => action is Sleep,
        PhaseView::Scanning { .. } => action is Read,
        PhaseView::Finished { outcome } => match outcome {
            Outcome::WrongLog => action matches FileAction::Finish { result: Ok(batch) }
                && batch.is_default(),
            Outcome::GaveUp { error } => action matches FileAction::Finish { result: Err(e) } && e
                == error,
            Outcome::Rows { through } => action matches FileAction::Finish { result: Ok(batch) }
                && scan::ends_at_newest(batch, through, decode),
        },
    }
}

/// As `asks_file`, with an empty batch in place of a failure.
pub open spec fn asks<P: Fn(&[u8]) -> Option<HistoryEntry>>(
    phase: PhaseView,
    action: HistoryAction,
    decode: P,
) -> bool {
    match phase {
        PhaseView::Opening => false,
        PhaseView::Locking { .. } => action is TryLock,
        PhaseView::Sleeping { .. } => action is Sleep,
        PhaseView::Scanning { .. } => action is Read,
        PhaseView::Finished { outcome } => match outcome {
            Outcome::WrongLog => action matches HistoryAction::Return { batch, failure: None }
                && batch.is_default(),
            Outcome::GaveUp { error } => action matches HistoryAction::Return {
                batch,
                failure: Some(e),
            } && batch.is_default() && e == error,
            Outcome::Rows { through } => action matches HistoryAction::Return {
                batch,
                failure: None,
            } && scan::ends_at_newest(batch, through, decode),
        },
    }
}

impl BatchLookup {
    pub open spec fn wf(self) -> bool {
        match self.phase {
            LookupPhase::Locking { attempts } => attempts > 0,
            LookupPhase::Scanning { scan } => {
                &&& scan.wf()
                &&& !scan.finished()
                &&& scan.end_offset() == self.request.end_offset
            },
            _ => true,
        }
    }

    /// A lookup whose log the host is about to open.
    pub fn new(log_id: u64, end_offset: usize, max_retries: usize) -> (lookup: Self)
        ensures
            lookup.wf(),
            lookup.request == (Request { log_id, end_offset, max_retries }),
            lookup.phase@ == PhaseView::Opening,
    {
        BatchLookup {
            request: Request { log_id, end_offset, max_retries },
            phase: LookupPhase::Opening,
        }
    }

    fn finished(request: Request, outcome: Ghost<Outcome>) -> (lookup: Self)
        ensures
            lookup.wf(),
            lookup.request == request,
            lookup.phase@ == (PhaseView::Finished { outcome: outcome@ }),
    {
        BatchLookup { request, phase: LookupPhase::Finished { outcome } }
    }

    fn gave_up(request: Request, error: LookupError) -> (step: (Self, FileAction))
        ensures
            step.0.wf(),
            step.0.request == request,
            step.0.phase@ == (PhaseView::Finished { outcome: Outcome::GaveUp { error } }),
            step.1 == (FileAction::Finish { result: Err(error) }),
    {
        (
            BatchLookup::finished(request, Ghost(Outcome::GaveUp { error })),
            FileAction::Finish { result: Err(error) },
        )
    }

    fn try_lock(request: Request, attempts: usize) -> (step: (Self, FileAction))
        ensures
            step.0.wf(),
            step.0.request == request,
            step.0.phase@ == request.try_lock(attempts as nat),
            attempts > 0 ==> step.1 is TryLock,
            attempts == 0 ==> step.1 == (FileAction::Finish {
                result: Err(LookupError::LockUnavailable),
            }),
    {
        if attempts == 0 {
            BatchLookup::gave_up(request, LookupError::LockUnavailable)
        } else {
            (
                BatchLookup { request, phase: LookupPhase::Locking { attempts } },
                FileAction::TryLock,
            )
        }
    }
}

/// Takes one event of the host into the lookup and says what the host does next, or how the lookup
/// ended.
pub fn lookup_batch_from_file<P: Fn(&[u8]) -> Option<HistoryEntry>>(
    lookup: BatchLookup,
    event: HistoryEvent<'_>,
    decode: &P,
) -> (step: (BatchLookup, FileAction))
    requires
        lookup.wf(),
        lookup.request.expects(lookup.phase@, event@),
        batch::decodes_any(*decode),
    ensures
        step.0.wf(),
        step.0.request == lookup.request,
        step.0.phase@ == lookup.request.advance(lookup.phase@, event@),
        asks_file(step.0.phase@, step.1, *decode),
{
    let BatchLookup { request, phase } = lookup;
    match (phase, event) {
        (LookupPhase::Opening, HistoryEvent::Opened { identity }) => {
            let current_log_id: u64 = match identity {
                Some(id) => id,
                None => 0,
            };
            if request.log_id != 0 && current_log_id != request.log_id {
                (
                    BatchLookup::finished(request, Ghost(Outcome::WrongLog)),
                    FileAction::Finish { result: Ok(HistoryBatch::default()) },
                )
            } else {
                let attempts = request.max_retries;
                BatchLookup::try_lock(request, attempts)
            }
        },
        (LookupPhase::Locking { .. }, HistoryEvent::Locked) => {
            let scan = BatchScan::new(request.end_offset);
            (BatchLookup { request, phase: LookupPhase::Scanning { scan } }, FileAction::Read)
        },
        (LookupPhase::Locking { attempts }, HistoryEvent::LockBusy) => (
            BatchLookup { request, phase: LookupPhase::Sleeping { attempts: attempts - 1 } },
            FileAction::Sleep,
        ),
        (LookupPhase::Sleeping { attempts }, HistoryEvent::Slept) => BatchLookup::try_lock(
            request,
            attempts,
        ),
        (LookupPhase::Scanning { scan }, HistoryEvent::Read { chunk }) => {
            let mut scan = scan;
            if scan_batch(&mut scan, chunk) {
                let ghost through = rows::through(
                    rows::rows(scan.consumed()),
                    request.end_offset as int,
                );
                let batch = scan.finish(decode);
                (
                    BatchLookup::finished(request, Ghost(Outcome::Rows { through })),
                    FileAction::Finish { result: Ok(batch) },
                )
            } else {
                (BatchLookup { request, phase: LookupPhase::Scanning { scan } }, FileAction::Read)
            }
        },
        _ => BatchLookup::gave_up(request, LookupError::Io),
    }
}

/// Look up a bounded batch of history records ending at the requested offset, one event at a time.
///
/// The result retains at most 128 rows and 64 KiB of raw JSONL, except that one oversized newest
/// row is returned alone so callers always make progress. A lookup that fails returns an empty
/// batch.
pub fn lookup_batch<P: Fn(&[u8]) -> Option<HistoryEntry>>(
    lookup: BatchLookup,
    event: HistoryEvent<'_>,
    decode: &P,
) -> (step: (BatchLookup, HistoryAction))
    requires
        lookup.wf(),
        lookup.request.expects(lookup.phase@, event@),
        batch::decodes_any(*decode),
    ensures
        step.0.wf(),
        step.0.request == lookup.request,
        step.0.phase@ == lookup.request.advance(lookup.phase@, event@),
        asks(step.0.phase@, step.1, *decode),
{
    let (next, action) = lookup_batch_from_file(lookup, event, decode);
    let action = match action {
        FileAction::TryLock => HistoryAction::TryLock,
        FileAction::Sleep => HistoryAction::Sleep,
        FileAction::Read => HistoryAction::Read,
        FileAction::Finish { result: Ok(batch) } => HistoryAction::Return { batch, failure: None },
        FileAction::Finish { result: Err(error) } => HistoryAction::Return {
            batch: HistoryBatch::default(),
            failure: Some(error),
        },
    };
    (next, action)
}

} // verus!
