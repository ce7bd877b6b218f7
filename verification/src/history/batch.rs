//! Batches of history records.

use std::collections::VecDeque;
use vstd::prelude::*;

use super::rows::NEWLINE;
use super::window;
use super::window::{MAX_BATCH_BYTES, MAX_BATCH_ROWS};

verus! {

/// The carriage return that may stand before the newline of a row.
pub const CARRIAGE_RETURN: u8 = 0x0D;

/// One record of the history log.
#[derive(Clone, Debug, PartialEq)]
pub struct HistoryEntry {
    pub session_id: String,
    pub ts: u64,
    pub text: String,
}

/// One absolute history offset covered by a bounded lookup.
///
/// Malformed records retain their offset with `entry` set to `None`, allowing callers to continue
/// searching older valid records without changing offset semantics.
#[derive(Clone, Debug, PartialEq)]
pub struct HistoryBatchEntry {
    pub offset: usize,
    pub entry: Option<HistoryEntry>,
}

/// A bounded newest-first suffix ending at a requested absolute history offset.
///
/// `next_older_offset` identifies the next offset a caller should request after exhausting
/// `entries`. It is explicit because the byte cap can make a batch contain fewer rows than the
/// row cap allows.
#[derive(Clone, Debug, PartialEq)]
pub struct HistoryBatch {
    pub entries: Vec<HistoryBatchEntry>,
    pub next_older_offset: Option<usize>,
}

/// A row that a batch retains, not decoded yet.
#[derive(Clone, Debug, PartialEq)]
pub struct RawHistoryBatchEntry {
    pub offset: usize,
    pub bytes: Vec<u8>,
}

impl HistoryBatch {
    /// Whether the batch covers no offset and points to none.
    pub open spec fn is_default(self) -> bool {
        self.entries@.len() == 0 && self.next_older_offset is None
    }
}

impl Default for HistoryBatch {
    fn default() -> (batch: Self)
        ensures
            batch.is_default(),
    {
        HistoryBatch { entries: Vec::new(), next_older_offset: None }
    }
}

/// The bytes of each row.
pub open spec fn row_bytes(suffix: Seq<RawHistoryBatchEntry>) -> Seq<Seq<u8>> {
    suffix.map_values(|row: RawHistoryBatchEntry| row.bytes@)
}

/// `bytes` without `last`, where they end in it.
pub open spec fn without_last(bytes: Seq<u8>, last: u8) -> Seq<u8> {
    if bytes.len() > 0 && bytes.last() == last {
        bytes.drop_last()
    } else {
        bytes
    }
}

/// The record that a row holds: the row without its line ending.
pub open spec fn record_body(row: Seq<u8>) -> Seq<u8> {
    without_last(without_last(row, NEWLINE), CARRIAGE_RETURN)
}

/// Whether `decode` takes any bytes.
pub open spec fn decodes_any<P: Fn(&[u8]) -> Option<HistoryEntry>>(decode: P) -> bool {
    forall|body: &[u8]| call_requires(decode, (body,))
}

/// Whether `entry` is what `decode` may return for `body`.
pub open spec fn decoded_as<P: Fn(&[u8]) -> Option<HistoryEntry>>(
    decode: P,
    body: Seq<u8>,
    entry: Option<HistoryEntry>,
) -> bool {
    exists|raw: &[u8]| raw@ == body && #[trigger] call_ensures(decode, (raw,), entry)
}

/// Whether `batch` is the batch of the rows in `suffix`, which stand oldest first.
pub open spec fn is_batch_of<P: Fn(&[u8]) -> Option<HistoryEntry>>(
    batch: HistoryBatch,
    suffix: Seq<RawHistoryBatchEntry>,
    decode: P,
) -> bool {
    &&& batch.entries@.len() == suffix.len()
    &&& forall|i: int|
        #![trigger batch.entries@[i]]
        0 <= i < suffix.len() ==> {
            &&& batch.entries@[i].offset == suffix[suffix.len() - 1 - i].offset
            &&& decoded_as(
                decode,
                record_body(suffix[suffix.len() - 1 - i].bytes@),
                batch.entries@[i].entry,
            )
        }
    &&& batch.next_older_offset == if suffix.len() > 0 && suffix[0].offset > 0 {
        Some((suffix[0].offset - 1) as usize)
    } else {
        None
    }
}

/// Appends a row to the retained suffix, then lets go of the oldest rows until the suffix is
/// within the row cap and the byte cap. A row over the byte cap is retained alone.
pub fn retain_row(
    suffix: &mut VecDeque<RawHistoryBatchEntry>,
    suffix_bytes: &mut usize,
    offset: usize,
    bytes: Vec<u8>,
)
    requires
        *old(suffix_bytes) == window::total_bytes(row_bytes(old(suffix)@)),
    ensures
        ({
            let grown = old(suffix)@.push(RawHistoryBatchEntry { offset, bytes });
            final(suffix)@ == grown.skip(window::window_start(row_bytes(grown)))
        }),
        *final(suffix_bytes) == window::total_bytes(row_bytes(final(suffix)@)),
{
    let ghost before = suffix@;
    let row = RawHistoryBatchEntry { offset, bytes };
    let ghost grown = before.push(row);
    let ghost all = row_bytes(grown);
    let row_bytes_len = row.bytes.len();
    proof {
        assert(all =~= row_bytes(before).push(row.bytes@));
        window::lemma_total_push(row_bytes(before), row.bytes@);
    }
    if row_bytes_len > MAX_BATCH_BYTES {
        suffix.clear();
        *suffix_bytes = row_bytes_len;
        suffix.push_back(row);
        proof {
            let start = all.len() - 1;
            if start > 0 {
                assert(all.skip(start - 1) =~= row_bytes(before).skip(start - 1).push(row.bytes@));
                window::lemma_total_push(row_bytes(before).skip(start - 1), row.bytes@);
            }
            window::lemma_window_start_is(all, start);
            assert(suffix@ =~= grown.skip(start));
            assert(row_bytes(suffix@) =~= all.skip(start));
            assert(all.skip(start) =~= Seq::<Seq<u8>>::empty().push(row.bytes@));
            window::lemma_total_push(Seq::<Seq<u8>>::empty(), row.bytes@);
        }
        return ;
    }
    let ghost mut start: int = 0;
    while suffix.len() >= MAX_BATCH_ROWS || *suffix_bytes > MAX_BATCH_BYTES - row_bytes_len
        invariant
            0 <= start <= before.len(),
            suffix@ == before.skip(start),
            *suffix_bytes == window::total_bytes(row_bytes(suffix@)),
            start == 0 || !window::fits(all.skip(start - 1)),
            row_bytes_len <= MAX_BATCH_BYTES,
            row_bytes_len == row.bytes@.len(),
            all == row_bytes(before).push(row.bytes@),
        decreases before.len() - start,
    {
        proof {
            assert(row_bytes(suffix@) =~= row_bytes(before).skip(start));
            assert(all.skip(start) =~= row_bytes(before).skip(start).push(row.bytes@));
            window::lemma_total_push(row_bytes(before).skip(start), row.bytes@);
            assert(before.skip(start).subrange(1, before.len() - start) =~= before.skip(start + 1));
            assert(row_bytes(before.skip(start)).skip(1) =~= row_bytes(before.skip(start + 1)));
        }
        if let Some(removed) = suffix.pop_front() {
            *suffix_bytes = *suffix_bytes - removed.bytes.len();
        }
        proof {
            start = start + 1;
        }
    }
    proof {
        assert(row_bytes(suffix@) =~= row_bytes(before).skip(start));
        assert(all.skip(start) =~= row_bytes(suffix@).push(row.bytes@));
        window::lemma_total_push(row_bytes(suffix@), row.bytes@);
        window::lemma_window_start_is(all, start);
        assert(suffix@.push(row) =~= grown.skip(start));
        assert(row_bytes(suffix@.push(row)) =~= all.skip(start));
    }
    *suffix_bytes = *suffix_bytes + row_bytes_len;
    suffix.push_back(row);
}

/// Decodes the record of a row: what is left of it without a trailing newline and, before that, a
/// trailing carriage return.
pub fn parse_entry<P: Fn(&[u8]) -> Option<HistoryEntry>>(raw: &[u8], decode: &P) -> (entry: Option<
    HistoryEntry,
>)
    requires
        decodes_any(*decode),
    ensures
        decoded_as(*decode, record_body(raw@), entry),
        exists|body: &[u8]|
            body@ == record_body(raw@) && #[trigger] call_ensures(*decode, (body,), entry),
{
    let raw = strip_last(raw, NEWLINE);
    let raw = strip_last(raw, CARRIAGE_RETURN);
    decode(raw)
}

fn strip_last(raw: &[u8], last: u8) -> (rest: &[u8])
    ensures
        rest@ == without_last(raw@, last),
{
    let len = raw.len();
    if len > 0 && raw[len - 1] == last {
        let rest = vstd::slice::slice_subrange(raw, 0, len - 1);
        assert(rest@ =~= raw@.drop_last());
        rest
    } else {
        raw
    }
}

/// Decodes the retained rows into a batch, newest first.
pub fn finish_batch<P: Fn(&[u8]) -> Option<HistoryEntry>>(
    suffix: VecDeque<RawHistoryBatchEntry>,
    decode: &P,
) -> (batch: HistoryBatch)
    requires
        decodes_any(*decode),
    ensures
        is_batch_of(batch, suffix@, *decode),
{
    let len = suffix.len();
    let next_older_offset = if len > 0 {
        suffix[0].offset.checked_sub(1)
    } else {
        None
    };
    let mut entries: Vec<HistoryBatchEntry> = Vec::new();
    let mut left: usize = len;
    while left > 0
        invariant
            left <= len,
            len == suffix@.len(),
            decodes_any(*decode),
            entries@.len() == len - left,
            forall|i: int|
                #![trigger entries@[i]]
                0 <= i < entries@.len() ==> {
                    &&& entries@[i].offset == suffix@[len - 1 - i].offset
                    &&& decoded_as(
                        *decode,
                        record_body(suffix@[len - 1 - i].bytes@),
                        entries@[i].entry,
                    )
                },
        decreases left,
    {
        left = left - 1;
        let raw = &suffix[left];
        let entry = parse_entry(raw.bytes.as_slice(), decode);
        entries.push(HistoryBatchEntry { offset: raw.offset, entry });
    }
    HistoryBatch { entries, next_older_offset }
}

/// The record of a row is what stands before its line ending: bytes 13 and 10, byte 10 alone, byte
/// 13 alone, or none.
pub proof fn law_record_is_the_row_without_its_ending(row: Seq<u8>)
    ensures
        row.len() >= 2 && row[row.len() - 2] == 13 && row[row.len() - 1] == 10 ==> record_body(row)
            == row.take(row.len() - 2),
        row.len() > 0 && row[row.len() - 1] == 10 && (row.len() == 1 || row[row.len() - 2] != 13)
            ==> record_body(row) == row.take(row.len() - 1),
        row.len() > 0 && row[row.len() - 1] == 13 ==> record_body(row) == row.take(row.len() - 1),
        row.len() == 0 || row[row.len() - 1] != 10 && row[row.len() - 1] != 13 ==> record_body(row)
            == row,
{
    if row.len() > 0 {
        assert(row.drop_last() =~= row.take(row.len() - 1));
        if row.len() > 1 {
            assert(row.drop_last().drop_last() =~= row.take(row.len() - 2));
        }
    }
}

/// What a record decodes to is what the decoder returns for its bytes, unchanged: where the
/// decoder computes `f`, it is `f` of the bytes.
pub proof fn law_decoding_is_the_decoder<P: Fn(&[u8]) -> Option<HistoryEntry>>(
    decode: P,
    f: spec_fn(Seq<u8>) -> Option<HistoryEntry>,
    body: Seq<u8>,
    entry: Option<HistoryEntry>,
)
    requires
        forall|raw: &[u8], found: Option<HistoryEntry>| #[trigger]
            call_ensures(decode, (raw,), found) ==> found == f(raw@),
        decoded_as(decode, body, entry),
    ensures
        entry == f(body),
{
}

/// Every result that the decoder may return for the bytes of a record is one that the record may
/// decode to, and a decoder that takes all bytes can be used.
pub proof fn law_any_total_decoder_will_do<P: Fn(&[u8]) -> Option<HistoryEntry>>(
    decode: P,
    raw: &[u8],
    entry: Option<HistoryEntry>,
)
    ensures
        call_ensures(decode, (raw,), entry) ==> decoded_as(decode, raw@, entry),
        (forall|body: &[u8]| call_requires(decode, (body,))) ==> decodes_any(decode),
{
}

/// The bytes of the rows, row by row.
pub proof fn law_row_bytes_are_those_of_each_row(suffix: Seq<RawHistoryBatchEntry>)
    ensures
        row_bytes(suffix).len() == suffix.len(),
        forall|i: int|
            0 <= i < suffix.len() ==> #[trigger] row_bytes(suffix)[i] == suffix[i].bytes@,
{
}

/// The default batch has no entry and points nowhere.
pub proof fn law_default_batch_is_empty(batch: HistoryBatch)
    ensures
        batch.is_default() <==> batch.entries@ == Seq::<HistoryBatchEntry>::empty()
            && batch.next_older_offset == None::<usize>,
{
    assert(batch.entries@.len() == 0 ==> batch.entries@ =~= Seq::<HistoryBatchEntry>::empty());
}

/// A batch of rows has one entry for each row, newest first, with the offset of the row and what
/// the decoder computes for its record, and points to the offset before the oldest of them, unless
/// that one is zero.
pub proof fn law_batch_shows_each_row<P: Fn(&[u8]) -> Option<HistoryEntry>>(
    batch: HistoryBatch,
    suffix: Seq<RawHistoryBatchEntry>,
    decode: P,
    f: spec_fn(Seq<u8>) -> Option<HistoryEntry>,
)
    requires
        is_batch_of(batch, suffix, decode),
        forall|raw: &[u8], found: Option<HistoryEntry>| #[trigger]
            call_ensures(decode, (raw,), found) ==> found == f(raw@),
    ensures
        batch.entries@.len() == suffix.len(),
        forall|k: int|
            0 <= k < suffix.len() ==> batch.entries@[suffix.len() - 1 - k].offset == (
            #[trigger] suffix[k]).offset,
        forall|k: int|
            0 <= k < suffix.len() ==> batch.entries@[suffix.len() - 1 - k].entry == f(
                record_body((#[trigger] suffix[k]).bytes@),
            ),
        suffix.len() == 0 ==> batch.next_older_offset == None::<usize>,
        suffix.len() > 0 && suffix[0].offset == 0 ==> batch.next_older_offset == None::<usize>,
        suffix.len() > 0 && suffix[0].offset > 0 ==> batch.next_older_offset is Some
            && batch.next_older_offset->0 + 1 == suffix[0].offset,
{
    assert forall|k: int| 0 <= k < suffix.len() implies batch.entries@[suffix.len() - 1
        - k].offset == (#[trigger] suffix[k]).offset && batch.entries@[suffix.len() - 1 - k].entry
        == f(record_body(suffix[k].bytes@)) by {
        let at = suffix.len() - 1 - k;
        assert(batch.entries@[at].offset == suffix[suffix.len() - 1 - at].offset);
    }
}

} // verus!
