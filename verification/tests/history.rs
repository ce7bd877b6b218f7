use std::collections::VecDeque;

use codex_messages::history::batch::{
    finish_batch, parse_entry, retain_row, HistoryBatch, HistoryBatchEntry, HistoryEntry,
    RawHistoryBatchEntry,
};
use codex_messages::history::lookup::{
    lookup_batch, lookup_batch_from_file, BatchLookup, FileAction, HistoryAction, HistoryEvent,
    LookupError,
};
use codex_messages::history::scan::{scan_batch, BatchScan};

const READ_BUFFER_SIZE: usize = 8 * 1024;
const MAX_RETRIES: usize = 10;
const LOG_ID: u64 = 42;

fn entry(offset: usize, text: impl Into<String>) -> HistoryEntry {
    HistoryEntry { session_id: "session".to_string(), ts: offset as u64, text: text.into() }
}

fn encode(entry: &HistoryEntry) -> String {
    let mut object = serde_json::Map::new();
    object.insert("session_id".to_string(), serde_json::Value::from(entry.session_id.clone()));
    object.insert("ts".to_string(), serde_json::Value::from(entry.ts));
    object.insert("text".to_string(), serde_json::Value::from(entry.text.clone()));
    serde_json::to_string(&serde_json::Value::Object(object)).expect("serialize entry")
}

fn decode(body: &[u8]) -> Option<HistoryEntry> {
    let value: serde_json::Value = serde_json::from_slice(body).ok()?;
    Some(HistoryEntry {
        session_id: value.get("session_id")?.as_str()?.to_string(),
        ts: value.get("ts")?.as_u64()?,
        text: value.get("text")?.as_str()?.to_string(),
    })
}

fn log_of(entries: &[HistoryEntry]) -> Vec<u8> {
    let mut log = String::new();
    for entry in entries {
        log.push_str(&format!("{}\n", encode(entry)));
    }
    log.into_bytes()
}

/// Runs a lookup on a log that is held in memory. The lock is busy at first.
fn run(
    log: &[u8],
    identity: Option<u64>,
    log_id: u64,
    end_offset: usize,
    busy: usize,
    read_size: usize,
) -> (HistoryBatch, Option<LookupError>) {
    let mut busy_left = busy;
    let mut position = 0;
    let lookup = BatchLookup::new(log_id, end_offset, MAX_RETRIES);
    let mut step = lookup_batch(lookup, HistoryEvent::Opened { identity }, &decode);
    loop {
        let (lookup, action) = step;
        let event = match action {
            HistoryAction::TryLock if busy_left > 0 => {
                busy_left -= 1;
                HistoryEvent::LockBusy
            }
            HistoryAction::TryLock => HistoryEvent::Locked,
            HistoryAction::Sleep => HistoryEvent::Slept,
            HistoryAction::Read => {
                let end = log.len().min(position + read_size);
                let chunk = &log[position..end];
                position = end;
                HistoryEvent::Read { chunk }
            }
            HistoryAction::Return { batch, failure } => return (batch, failure),
        };
        step = lookup_batch(lookup, event, &decode);
    }
}

fn batch_at(log: &[u8], end_offset: usize) -> HistoryBatch {
    let (batch, failure) = run(log, Some(LOG_ID), LOG_ID, end_offset, 0, READ_BUFFER_SIZE);
    assert_eq!(failure, None);
    batch
}

fn batch_for(entries: &[HistoryEntry], end_offset: usize) -> HistoryBatch {
    batch_at(&log_of(entries), end_offset)
}

fn offsets(batch: &HistoryBatch) -> Vec<usize> {
    batch.entries.iter().map(|entry| entry.offset).collect()
}

#[test]
fn search_batch_returns_bounded_newest_first_absolute_offsets() {
    let entries: Vec<_> = (0..200).map(|offset| entry(offset, format!("row {offset}"))).collect();
    let batch = batch_for(&entries, /*end_offset*/ 199);

    assert_eq!(batch.entries.len(), 128);
    assert_eq!(batch.entries.first().map(|entry| entry.offset), Some(199));
    assert_eq!(batch.entries.last().map(|entry| entry.offset), Some(72));
    assert_eq!(batch.next_older_offset, Some(71));
    assert_eq!(batch.entries[0].entry, Some(entries[199].clone()));
}

#[test]
fn search_batch_stitches_chunks_and_keeps_malformed_offsets() {
    let first = entry(0, "a".repeat(READ_BUFFER_SIZE + 17));
    let third = entry(2, "third");
    let contents = format!("{}\nnot-json\n{}\n", encode(&first), encode(&third));

    assert_eq!(
        batch_at(contents.as_bytes(), /*end_offset*/ 2),
        HistoryBatch {
            entries: vec![
                HistoryBatchEntry { offset: 2, entry: Some(third) },
                HistoryBatchEntry { offset: 1, entry: None },
                HistoryBatchEntry { offset: 0, entry: Some(first) },
            ],
            next_older_offset: None,
        }
    );
}

#[test]
fn search_batch_preserves_identity_append_trim_and_short_file_semantics() {
    let initial = vec![entry(0, "zero"), entry(1, "one")];
    let mut log = log_of(&initial);
    assert_eq!(
        run(&log, Some(LOG_ID), LOG_ID.wrapping_add(1), /*end_offset*/ 1, 0, READ_BUFFER_SIZE),
        (HistoryBatch::default(), None)
    );

    log.extend_from_slice(&log_of(&[entry(2, "appended")]));
    let batch = batch_at(&log, /*end_offset*/ 1);
    assert_eq!(
        batch.entries,
        vec![
            HistoryBatchEntry { offset: 1, entry: Some(initial[1].clone()) },
            HistoryBatchEntry { offset: 0, entry: Some(initial[0].clone()) },
        ]
    );

    // Trimming leaves the newest record as the whole log.
    let newest = "c".repeat(200);
    let trimmed = batch_at(&log_of(&[entry(3, newest.clone())]), /*end_offset*/ 20);
    assert_eq!(trimmed.entries.len(), 1);
    assert_eq!(trimmed.entries[0].offset, 0);
    assert_eq!(trimmed.entries[0].entry.as_ref().map(|entry| &entry.text), Some(&newest));
    assert_eq!(trimmed.next_older_offset, None);
}

#[test]
fn search_batch_enforces_byte_cap_and_oversized_row_progress() {
    let entries: Vec<_> = (0..5)
        .map(|offset| {
            entry(offset, char::from(b'a' + offset as u8).to_string().repeat(20_000))
        })
        .collect();
    let batch = batch_for(&entries, /*end_offset*/ 4);
    assert_eq!(batch.entries.len(), 3);
    assert_eq!(batch.entries.first().map(|entry| entry.offset), Some(4));
    assert_eq!(batch.entries.last().map(|entry| entry.offset), Some(2));
    assert_eq!(batch.next_older_offset, Some(1));

    let entries = vec![entry(0, "small"), entry(1, "x".repeat(70_000))];
    let oversized = batch_for(&entries, /*end_offset*/ 1);
    assert_eq!(oversized.entries.len(), 1);
    assert_eq!(oversized.entries[0].entry, Some(entries[1].clone()));
    assert_eq!(oversized.next_older_offset, Some(0));
    let next = batch_for(&entries, /*end_offset*/ 0);
    assert_eq!(next.entries[0].entry, Some(entries[0].clone()));
    assert_eq!(next.next_older_offset, None);
}

#[test]
fn oversized_row_is_dropped_once_newer_rows_follow() {
    let entries = vec![entry(0, "a"), entry(1, "x".repeat(70_000)), entry(2, "b"), entry(3, "c")];
    let batch = batch_for(&entries, 3);
    assert_eq!(offsets(&batch), vec![3, 2]);
    assert_eq!(batch.next_older_offset, Some(1));
}

#[test]
fn paging_visits_every_offset_once() {
    let entries: Vec<_> = (0..300).map(|offset| entry(offset, "x".repeat(offset * 7))).collect();
    let log = log_of(&entries);
    let mut seen: Vec<usize> = Vec::new();
    let mut next = Some(299);
    while let Some(end_offset) = next {
        let batch = batch_at(&log, end_offset);
        seen.extend(offsets(&batch));
        next = batch.next_older_offset;
    }
    assert_eq!(seen, (0..300).rev().collect::<Vec<usize>>());
}

#[test]
fn chunking_makes_no_difference() {
    let entries: Vec<_> = (0..20).map(|offset| entry(offset, format!("row {offset}"))).collect();
    let log = log_of(&entries);
    let expected = batch_at(&log, 12);
    assert_eq!(offsets(&expected), (0..13).rev().collect::<Vec<usize>>());
    for read_size in [1, 2, 7, 50, 1000, log.len()] {
        assert_eq!(run(&log, None, 0, 12, 0, read_size), (expected.clone(), None));
    }
}

#[test]
fn last_row_needs_no_newline() {
    let log = format!("{}\n{}", encode(&entry(0, "zero")), encode(&entry(1, "one")));
    let batch = batch_at(log.as_bytes(), 5);
    assert_eq!(offsets(&batch), vec![1, 0]);
    assert_eq!(batch.entries[0].entry, Some(entry(1, "one")));
}

#[test]
fn empty_log_gives_an_empty_batch() {
    assert_eq!(batch_at(b"", 0), HistoryBatch::default());
    assert_eq!(offsets(&batch_at(b"\n\n", 9)), vec![1, 0]);
}

#[test]
fn batch_at_the_caps() {
    let row = "x".repeat(32 * 1024 - 1) + "\n";
    let log = row.repeat(3);
    let batch = batch_at(log.as_bytes(), 2);
    assert_eq!(offsets(&batch), vec![2, 1]);
    assert_eq!(batch.next_older_offset, Some(0));
    let log = "\n".repeat(129);
    assert_eq!(batch_at(log.as_bytes(), 127).next_older_offset, None);
    assert_eq!(batch_at(log.as_bytes(), 128).next_older_offset, Some(0));
    assert_eq!(batch_at(log.as_bytes(), usize::MAX).next_older_offset, Some(0));
}

#[test]
fn line_endings_are_no_part_of_the_record() {
    let body = |raw: &[u8]| Some(entry(raw.len(), String::from_utf8_lossy(raw).to_string()));
    assert_eq!(parse_entry(b"ab\n", &body), Some(entry(2, "ab")));
    assert_eq!(parse_entry(b"ab\r\n", &body), Some(entry(2, "ab")));
    assert_eq!(parse_entry(b"ab\r", &body), Some(entry(2, "ab")));
    assert_eq!(parse_entry(b"ab", &body), Some(entry(2, "ab")));
    assert_eq!(parse_entry(b"ab\n\n", &body), Some(entry(3, "ab\n")));
    assert_eq!(parse_entry(b"ab\r\r\n", &body), Some(entry(3, "ab\r")));
    assert_eq!(parse_entry(b"\n", &body), Some(entry(0, "")));
    assert_eq!(parse_entry(b"", &body), Some(entry(0, "")));
}

#[test]
fn retain_row_keeps_rows_and_bytes_within_the_caps() {
    let mut suffix: VecDeque<RawHistoryBatchEntry> = VecDeque::new();
    let mut bytes = 0usize;
    retain_row(&mut suffix, &mut bytes, 0, vec![0; 40_000]);
    retain_row(&mut suffix, &mut bytes, 1, vec![0; 20_000]);
    assert_eq!((suffix.len(), bytes), (2, 60_000));
    retain_row(&mut suffix, &mut bytes, 2, vec![0; 10_000]);
    assert_eq!((suffix.len(), bytes, suffix[0].offset), (2, 30_000, 1));
    retain_row(&mut suffix, &mut bytes, 3, vec![0; 65_537]);
    assert_eq!((suffix.len(), bytes, suffix[0].offset), (1, 65_537, 3));
    retain_row(&mut suffix, &mut bytes, 4, vec![0; 65_536]);
    assert_eq!((suffix.len(), bytes, suffix[0].offset), (1, 65_536, 4));
    for offset in 5..200 {
        retain_row(&mut suffix, &mut bytes, offset, vec![0]);
    }
    assert_eq!((suffix.len(), bytes, suffix[0].offset), (128, 128, 72));
}

#[test]
fn finish_batch_reverses_and_points_to_the_next_older_offset() {
    let rows: VecDeque<RawHistoryBatchEntry> = VecDeque::from(vec![
        RawHistoryBatchEntry { offset: 7, bytes: b"bad\n".to_vec() },
        RawHistoryBatchEntry { offset: 8, bytes: format!("{}\r\n", encode(&entry(8, "ok"))).into_bytes() },
    ]);
    let batch = finish_batch(rows, &decode);
    assert_eq!(
        batch,
        HistoryBatch {
            entries: vec![
                HistoryBatchEntry { offset: 8, entry: Some(entry(8, "ok")) },
                HistoryBatchEntry { offset: 7, entry: None },
            ],
            next_older_offset: Some(6),
        }
    );
    assert_eq!(finish_batch(VecDeque::new(), &decode), HistoryBatch::default());
}

#[test]
fn scan_stops_once_the_end_row_is_complete() {
    let mut scan = BatchScan::new(1);
    assert!(!scan_batch(&mut scan, b"a\nb"));
    assert!(scan_batch(&mut scan, b"b\nc\nd\n"));
    let text = |raw: &[u8]| Some(entry(0, String::from_utf8_lossy(raw).to_string()));
    let batch = scan.finish(&text);
    assert_eq!(
        batch.entries,
        vec![
            HistoryBatchEntry { offset: 1, entry: Some(entry(0, "bb")) },
            HistoryBatchEntry { offset: 0, entry: Some(entry(0, "a")) },
        ]
    );
    let mut scan = BatchScan::new(0);
    assert!(!scan_batch(&mut scan, b"a"));
    assert!(scan_batch(&mut scan, b""));
    assert_eq!(offsets(&scan.finish(&decode)), vec![0]);
}

#[test]
fn identity_must_match_unless_any_is_asked_for() {
    let log = log_of(&[entry(0, "zero")]);
    let found = |identity: Option<u64>, log_id: u64| {
        run(&log, identity, log_id, 0, 0, READ_BUFFER_SIZE).0.entries.len()
    };
    assert_eq!(found(Some(5), 5), 1);
    assert_eq!(found(Some(5), 6), 0);
    assert_eq!(found(Some(5), 0), 1);
    assert_eq!(found(None, 0), 1);
    assert_eq!(found(None, 5), 0);
}

#[test]
fn lock_is_tried_a_bounded_number_of_times() {
    let log = log_of(&[entry(0, "zero")]);
    let (batch, failure) = run(&log, None, 0, 0, MAX_RETRIES - 1, READ_BUFFER_SIZE);
    assert_eq!((batch.entries.len(), failure), (1, None));
    assert_eq!(
        run(&log, None, 0, 0, MAX_RETRIES, READ_BUFFER_SIZE),
        (HistoryBatch::default(), Some(LookupError::LockUnavailable))
    );
    let lookup = BatchLookup::new(0, 0, 0);
    let (_, action) =
        lookup_batch_from_file(lookup, HistoryEvent::Opened { identity: None }, &decode);
    assert_eq!(action, FileAction::Finish { result: Err(LookupError::LockUnavailable) });
}

#[test]
fn failure_at_any_point_gives_an_empty_batch() {
    let gave_up = HistoryAction::Return {
        batch: HistoryBatch::default(),
        failure: Some(LookupError::Io),
    };
    let (_, action) = lookup_batch(BatchLookup::new(0, 9, 3), HistoryEvent::Failed, &decode);
    assert_eq!(action, gave_up);

    let opened = || {
        lookup_batch(BatchLookup::new(0, 9, 3), HistoryEvent::Opened { identity: None }, &decode)
    };
    let (lookup, action) = opened();
    assert_eq!(action, HistoryAction::TryLock);
    assert_eq!(lookup_batch(lookup, HistoryEvent::Failed, &decode).1, gave_up);

    let (lookup, action) = lookup_batch(opened().0, HistoryEvent::Locked, &decode);
    assert_eq!(action, HistoryAction::Read);
    let (lookup, action) =
        lookup_batch(lookup, HistoryEvent::Read { chunk: b"not-json\n" }, &decode);
    assert_eq!(action, HistoryAction::Read);
    assert_eq!(lookup_batch(lookup, HistoryEvent::Failed, &decode).1, gave_up);
}
