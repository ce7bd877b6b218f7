//! The forward scan of a history log, one read at a time.

use std::collections::VecDeque;
use vstd::prelude::*;

use super::batch;
use super::batch::{finish_batch, retain_row, HistoryBatch, HistoryEntry, RawHistoryBatchEntry};
use super::rows;
use super::rows::NEWLINE;
use super::window;

verus! {

/// A scan for the batch that ends at one absolute offset.
///
/// Rows are counted from the oldest offset while chunks of the log arrive. The scan holds the
/// retained suffix and the row that no newline has ended yet, and nothing else of the log.
pub struct BatchScan {
    end_offset: usize,
    suffix: VecDeque<RawHistoryBatchEntry>,
    suffix_bytes: usize,
    pending: Vec<u8>,
    offset: usize,
    finished: bool,
    consumed: Ghost<Seq<u8>>,
}

/// Whether `suffix` holds the rows of `all` that a batch retains, each with its absolute offset.
pub open spec fn retained(suffix: Seq<RawHistoryBatchEntry>, all: Seq<Seq<u8>>) -> bool {
    &&& batch::row_bytes(suffix) == window::window(all)
    &&& forall|i: int|
        0 <= i < suffix.len() ==> (#[trigger] suffix[i]).offset == window::window_start(all) + i
}

/// Whether `batch` is the batch that ends at the newest of the rows in `all`, which start at the
/// oldest of the log: the retained rows, newest first, each with its absolute offset and what its
/// record decodes to, and the offset before the oldest of them, where there is one.
pub open spec fn ends_at_newest<P: Fn(&[u8]) -> Option<HistoryEntry>>(
    batch: HistoryBatch,
    all: Seq<Seq<u8>>,
    decode: P,
) -> bool {
    let start = window::window_start(all);
    &&& batch.entries@.len() == all.len() - start
    &&& forall|i: int|
        #![trigger batch.entries@[i]]
        0 <= i < batch.entries@.len() ==> {
            &&& batch.entries@[i].offset == all.len() - 1 - i
            &&& batch::decoded_as(
                decode,
                batch::record_body(all[all.len() - 1 - i]),
                batch.entries@[i].entry,
            )
        }
    &&& batch.next_older_offset == if start > 0 {
        Some((start - 1) as usize)
    } else {
        None
    }
}

/// Finds a byte with `memchr::memchr_iter`. The positions are those of all occurrences of `needle`
/// in `haystack`, in increasing order.
#[verifier::external_body]
fn byte_positions(needle: u8, haystack: &[u8]) -> (positions: Vec<usize>)
    ensures
        forall|k: int|
            0 <= k < positions@.len() ==> (#[trigger] positions@[k]) < haystack@.len()
                && haystack@[positions@[k] as int] == needle,
        forall|j: int, k: int|
            0 <= j < k < positions@.len() ==> positions@[j] < positions@[k],
        forall|i: int|
            0 <= i < haystack@.len() && #[trigger] haystack@[i] == needle ==> positions@.contains(
                i as usize,
            ),
{
    memchr::memchr_iter(needle, haystack).collect()
}

impl BatchScan {
    /// The offset that the batch is to end at.
    pub closed spec fn end_offset(self) -> usize {
        self.end_offset
    }

    /// The bytes of the log that have arrived.
    pub closed spec fn consumed(self) -> Seq<u8> {
        self.consumed@
    }

    /// Whether the scan needs no more of the log.
    pub closed spec fn finished(self) -> bool {
        self.finished
    }

    /// What holds between two reads.
    pub closed spec fn wf(self) -> bool {
        &&& self.suffix_bytes == window::total_bytes(batch::row_bytes(self.suffix@))
        &&& if self.finished {
            retained(self.suffix@, rows::through(rows::rows(self.consumed@), self.end_offset as int))
        } else {
            &&& self.offset <= self.end_offset
            &&& self.offset == rows::complete_rows(self.consumed@).len()
            &&& self.pending@ == rows::partial_row(self.consumed@)
            &&& retained(self.suffix@, rows::complete_rows(self.consumed@))
        }
    }

    /// A scan that nothing has arrived for.
    pub fn new(end_offset: usize) -> (scan: Self)
        ensures
            scan.wf(),
            !scan.finished(),
            scan.end_offset() == end_offset,
            scan.consumed() == Seq::<u8>::empty(),
    {
        let scan = BatchScan {
            end_offset,
            suffix: VecDeque::new(),
            suffix_bytes: 0,
            pending: Vec::new(),
            offset: 0,
            finished: false,
            consumed: Ghost(Seq::empty()),
        };
        assert(batch::row_bytes(scan.suffix@) =~= window::window(
            rows::complete_rows(Seq::<u8>::empty()),
        ));
        scan
    }

    /// The batch of a finished scan.
    pub fn finish<P: Fn(&[u8]) -> Option<HistoryEntry>>(self, decode: &P) -> (batch: HistoryBatch)
        requires
            self.wf(),
            self.finished(),
            batch::decodes_any(*decode),
        ensures
            ends_at_newest(
                batch,
                rows::through(rows::rows(self.consumed()), self.end_offset() as int),
                *decode,
            ),
    {
        let ghost suffix = self.suffix@;
        let ghost all = rows::through(rows::rows(self.consumed()), self.end_offset() as int);
        proof {
            window::lemma_window_start_range(all);
            assert(batch::row_bytes(suffix).len() == suffix.len());
            assert forall|i: int| 0 <= i < suffix.len() implies (#[trigger] suffix[i]).bytes@
                == all[window::window_start(all) + i] by {
                assert(batch::row_bytes(suffix)[i] == suffix[i].bytes@);
            }
        }
        finish_batch(self.suffix, decode)
    }
}

/// Takes the next read of the log into the scan. An empty chunk is the end of the log. Returns
/// whether the scan is finished: the row at the end offset is complete, or the log has ended.
pub fn scan_batch(scan: &mut BatchScan, chunk: &[u8]) -> (finished: bool)
    requires
        old(scan).wf(),
        !old(scan).finished(),
    ensures
        final(scan).wf(),
        final(scan).end_offset() == old(scan).end_offset(),
        final(scan).consumed() == old(scan).consumed() + chunk@,
        finished == final(scan).finished(),
        finished <==> chunk@.len() == 0 || rows::complete_rows(final(scan).consumed()).len()
            > final(scan).end_offset(),
{
    let ghost before = scan.consumed@;
    let end_offset = scan.end_offset;
    if chunk.is_empty() {
        assert(before + chunk@ =~= before);
        if scan.pending.len() > 0 {
            let mut row: Vec<u8> = Vec::new();
            std::mem::swap(&mut row, &mut scan.pending);
            retain_next(scan, row, Ghost(rows::complete_rows(before)));
        }
        scan.finished = true;
        return true;
    }
    let chunk_len = chunk.len();
    let positions = byte_positions(NEWLINE, chunk);
    let mut row_start: usize = 0;
    let mut k: usize = 0;
    proof {
        assert(before + chunk@.take(0) =~= before);
    }
    while k < positions.len()
        invariant
            k <= positions@.len(),
            chunk_len == chunk@.len(),
            row_start <= chunk_len,
            row_start == if k == 0 {
                0
            } else {
                positions@[k - 1] + 1
            },
            scan.end_offset == end_offset,
            end_offset == old(scan).end_offset,
            scan.consumed@ == before,
            before == old(scan).consumed@,
            !scan.finished,
            scan.suffix_bytes == window::total_bytes(batch::row_bytes(scan.suffix@)),
            scan.offset <= end_offset,
            scan.offset == rows::complete_rows(before + chunk@.take(row_start as int)).len(),
            scan.pending@ == rows::partial_row(before + chunk@.take(row_start as int)),
            retained(scan.suffix@, rows::complete_rows(before + chunk@.take(row_start as int))),
            forall|k: int|
                0 <= k < positions@.len() ==> (#[trigger] positions@[k]) < chunk@.len()
                    && chunk@[positions@[k] as int] == NEWLINE,
            forall|j: int, k: int|
                0 <= j < k < positions@.len() ==> positions@[j] < positions@[k],
            forall|i: int|
                0 <= i < chunk@.len() && #[trigger] chunk@[i] == NEWLINE ==> positions@.contains(
                    i as usize,
                ),
        decreases positions@.len() - k,
    {
        let newline = positions[k];
        let ghost done = before + chunk@.take(row_start as int);
        let line = vstd::slice::slice_subrange(chunk, row_start, newline + 1);
        let ghost next = before + chunk@.take(newline + 1);
        proof {
            assert(next =~= done + line@);
            assert(rows::newline_free(line@.drop_last())) by {
                assert forall|i: int| 0 <= i < line@.drop_last().len() implies line@.drop_last()[i]
                    != NEWLINE by {
                    let at = row_start + i;
                    if chunk@[at] == NEWLINE {
                        let j = choose|j: int|
                            0 <= j < positions@.len() && positions@[j] == at as usize;
                        assert(positions@[j] == at);
                    }
                }
            }
            rows::lemma_append_line(done, line@);
        }
        let mut row: Vec<u8> = Vec::new();
        std::mem::swap(&mut row, &mut scan.pending);
        row.extend_from_slice(line);
        assert(row@ =~= rows::partial_row(done) + line@);
        retain_next(scan, row, Ghost(rows::complete_rows(done)));
        if scan.offset == end_offset {
            scan.finished = true;
            proof {
                rows::lemma_complete_rows_grow(next, chunk@.skip(newline + 1));
                assert(next + chunk@.skip(newline + 1) =~= before + chunk@);
                scan.consumed@ = before + chunk@;
                let all = rows::rows(before + chunk@);
                assert(rows::through(all, end_offset as int) =~= rows::complete_rows(next));
            }
            return true;
        }
        scan.offset = scan.offset + 1;
        row_start = newline + 1;
        k = k + 1;
    }
    let rest = vstd::slice::slice_subrange(chunk, row_start, chunk_len);
    scan.pending.extend_from_slice(rest);
    proof {
        let done = before + chunk@.take(row_start as int);
        assert(rows::newline_free(rest@)) by {
            assert forall|i: int| 0 <= i < rest@.len() implies rest@[i] != NEWLINE by {
                let at = row_start + i;
                if chunk@[at] == NEWLINE {
                    let j = choose|j: int| 0 <= j < positions@.len() && positions@[j] == at as usize;
                    assert(positions@[j] == at);
                }
            }
        }
        assert(before + chunk@ =~= done + rest@);
        rows::lemma_append_newline_free(done, rest@);
        assert(scan.pending@ =~= rows::partial_row(done) + rest@);
        scan.consumed@ = before + chunk@;
    }
    false
}

/// Retains the row that follows the rows in `earlier`.
fn retain_next(scan: &mut BatchScan, row: Vec<u8>, earlier: Ghost<Seq<Seq<u8>>>)
    requires
        old(scan).suffix_bytes == window::total_bytes(batch::row_bytes(old(scan).suffix@)),
        old(scan).offset == earlier@.len(),
        retained(old(scan).suffix@, earlier@),
    ensures
        final(scan).suffix_bytes == window::total_bytes(batch::row_bytes(final(scan).suffix@)),
        retained(final(scan).suffix@, earlier@.push(row@)),
        final(scan).end_offset == old(scan).end_offset,
        final(scan).pending == old(scan).pending,
        final(scan).offset == old(scan).offset,
        final(scan).finished == old(scan).finished,
        final(scan).consumed == old(scan).consumed,
{
    let ghost before = scan.suffix@;
    let ghost bytes = row@;
    let ghost grown = before.push(RawHistoryBatchEntry { offset: scan.offset, bytes: row });
    let offset = scan.offset;
    retain_row(&mut scan.suffix, &mut scan.suffix_bytes, offset, row);
    proof {
        assert(batch::row_bytes(grown) =~= window::window(earlier@).push(bytes));
        window::lemma_window_push(earlier@, bytes);
        window::lemma_window_start_range(earlier@);
        window::lemma_window_start_range(batch::row_bytes(grown));
        let start = window::window_start(batch::row_bytes(grown));
        assert(batch::row_bytes(grown.skip(start)) =~= batch::row_bytes(grown).skip(start));
        assert(batch::row_bytes(before).len() == before.len());
    }
}

} // verus!
