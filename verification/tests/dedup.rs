use oxicloud::chunk_ranges::select_chunk_ranges;
use oxicloud::dedup_index::{
    attach_round, dedup_totals, legacy_chunk_list, manifest_chunk_list, manifest_shape_issue,
    orphan_cleanup_action, overlap_enabled, registration_rows, split_pinned, AttachOutcome,
    IngestLedger, LooseChunkSession,
    LooseStep, ManifestIssue, OrphanCleanup, SequenceVerifier,
};
fn blake3_hash_hex(data: &[u8]) -> String {
    blake3::hash(data).to_hex().to_string()
}

use oxicloud::ingest::{ChunkIngestOutcome, ChunkStep, IngestSession, FLUSH_MAX_CHUNKS};

#[test]
fn test_distinct_hashes_deduplicates_preserving_order() {
    let outcome = ChunkIngestOutcome {
        file_hash: String::new(),
        total_size: 0,
        chunk_hashes: vec!["a".into(), "b".into(), "a".into(), "c".into(), "b".into()],
        chunk_sizes: vec![1, 2, 1, 3, 2],
        newly_written: 0,
    };
    assert_eq!(outcome.distinct_hashes(), vec!["a", "b", "c"]);
}

#[test]
fn single_chunk_file_hash_is_its_chunk_hash() {
    let mut s = IngestSession::new();
    assert!(matches!(s.push_chunk(b"abc".to_vec()), ChunkStep::Buffered));
    let (outcome, _) = s.finish();
    assert_eq!(outcome.file_hash.len(), 64);
    assert_ne!(outcome.file_hash, "abc");
    assert_eq!(outcome.file_hash, outcome.chunk_hashes[0]);
    assert!(outcome.file_hash.chars().all(|c| c.is_ascii_digit() || ('a'..='f').contains(&c)));
}

#[test]
fn ingest_session_hashes_whole_stream_and_dedups() {
    let mut s = IngestSession::new();
    assert!(matches!(s.push_chunk(b"hello ".to_vec()), ChunkStep::Buffered));
    assert!(matches!(s.push_chunk(b"world".to_vec()), ChunkStep::Buffered));
    assert!(matches!(s.push_chunk(b"hello ".to_vec()), ChunkStep::Duplicate));
    let (outcome, last) = s.finish();
    assert_eq!(outcome.file_hash, blake3_hash_hex(b"hello worldhello "));
    assert_eq!(outcome.total_size, 17);
    assert_eq!(outcome.chunk_sizes, vec![6, 5, 6]);
    assert_eq!(outcome.chunk_hashes[0], outcome.chunk_hashes[2]);
    assert_eq!(outcome.distinct_hashes().len(), 2);
    assert_eq!(last.len(), 2);
    assert_eq!(last[0].0, blake3_hash_hex(b"hello "));
    assert_eq!(last[1].1, b"world".to_vec());
}

#[test]
fn ingest_session_flushes_full_batches() {
    let mut s = IngestSession::new();
    let mut flushed = 0usize;
    for i in 0..(FLUSH_MAX_CHUNKS as u32 + 3) {
        match s.push_chunk(i.to_le_bytes().to_vec()) {
            ChunkStep::Flush(batch) => {
                assert_eq!(batch.len(), FLUSH_MAX_CHUNKS);
                flushed += 1;
            }
            ChunkStep::Buffered => {}
            ChunkStep::Duplicate => panic!("distinct chunks reported as duplicate"),
        }
    }
    assert_eq!(flushed, 1);
    let (outcome, last) = s.finish();
    assert_eq!(last.len(), 3);
    assert_eq!(outcome.chunk_hashes.len(), FLUSH_MAX_CHUNKS + 3);
}

#[test]
fn empty_stream_has_no_chunks() {
    let s = IngestSession::new();
    let (outcome, last) = s.finish();
    assert_eq!(outcome.total_size, 0);
    assert!(outcome.chunk_hashes.is_empty());
    assert!(last.is_empty());
    assert_eq!(outcome.file_hash, blake3_hash_hex(b""));
}

#[test]
fn range_plan_selects_overlapping_chunks() {
    // chunks: [0,10) [10,20) [20,25)
    let sizes = vec![10i64, 10, 5];
    let plan = select_chunk_ranges(&sizes, 25, 5, Some(15));
    assert_eq!(plan, vec![(0, 5, None), (1, 0, Some(5))]);
    let plan = select_chunk_ranges(&sizes, 25, 12, None);
    assert_eq!(plan, vec![(1, 2, None), (2, 0, None)]);
    let plan = select_chunk_ranges(&sizes, 25, 25, None);
    assert!(plan.is_empty());
}

#[test]
fn manifest_lists_pair_hashes_and_sizes() {
    let (list, total) = manifest_chunk_list(vec!["h1".into(), "h2".into()], vec![3, 4, 5], 7);
    assert_eq!(list, vec![("h1".to_string(), 3u64), ("h2".to_string(), 4u64)]);
    assert_eq!(total, 7);
    let (list, total) = legacy_chunk_list(&"whole".to_string(), 42);
    assert_eq!(list, vec![("whole".to_string(), 42u64)]);
    assert_eq!(total, 42);
}

#[test]
fn split_pinned_separates_known_chunks() {
    let batch = vec![
        ("a".to_string(), vec![1u8]),
        ("b".to_string(), vec![2u8]),
        ("c".to_string(), vec![3u8]),
    ];
    let (pinned, unknown) = split_pinned(batch, &vec!["b".to_string()]);
    assert_eq!(pinned, vec!["b".to_string()]);
    assert_eq!(unknown, vec![("a".to_string(), vec![1u8]), ("c".to_string(), vec![3u8])]);
}

#[test]
fn registration_rows_unzip_in_order() {
    let (hashes, sizes) = registration_rows(&vec![("x".to_string(), 1), ("y".to_string(), 2)]);
    assert_eq!(hashes, vec!["x".to_string(), "y".to_string()]);
    assert_eq!(sizes, vec![1, 2]);
}

#[test]
fn loose_chunks_answer_every_frame_in_order() {
    let mut s = LooseChunkSession::new();
    let first = s.push_frame(b"part");
    assert!(matches!(&first, LooseStep::Store(h) if *h == blake3_hash_hex(b"part")));
    assert!(matches!(s.push_frame(b"part"), LooseStep::Repeat));
    assert!(matches!(s.push_frame(b"other"), LooseStep::Store(_)));
    let big = vec![0u8; 1_048_577];
    assert!(matches!(s.push_frame(&big), LooseStep::TooLarge));
    let (received, new_rows) = s.finish();
    assert_eq!(received.len(), 3);
    assert_eq!(received[0], received[1]);
    assert_eq!(received[2].1, 5);
    assert_eq!(new_rows.len(), 2);
    assert_eq!(new_rows[0], (blake3_hash_hex(b"part"), 4));
}

#[test]
fn orphan_cleanup_follows_manifest_count() {
    assert_eq!(orphan_cleanup_action(Some(1)), OrphanCleanup::RemoveManifest);
    assert_eq!(orphan_cleanup_action(Some(0)), OrphanCleanup::RemoveManifest);
    assert_eq!(orphan_cleanup_action(Some(2)), OrphanCleanup::DecrementManifest);
    assert_eq!(orphan_cleanup_action(None), OrphanCleanup::DeleteLegacyIfUnreferenced);
}

#[test]
fn attach_rounds_retry_then_give_up() {
    assert_eq!(attach_round(0, 1, None), AttachOutcome::NewBlob);
    assert_eq!(attach_round(0, 0, Some(99)), AttachOutcome::ExistingBlob(99));
    assert_eq!(attach_round(0, 0, None), AttachOutcome::Retry);
    assert_eq!(attach_round(1, 0, None), AttachOutcome::Retry);
    assert_eq!(attach_round(2, 0, None), AttachOutcome::GiveUp);
}

#[test]
fn manifest_shape_issues_are_reported() {
    assert_eq!(manifest_shape_issue(2, &vec![1, 2], 3), None);
    assert_eq!(manifest_shape_issue(3, &vec![1, 2], 3), Some(ManifestIssue::LengthMismatch));
    assert_eq!(
        manifest_shape_issue(2, &vec![1, 2], 4),
        Some(ManifestIssue::TotalMismatch { total_size: 4, sum: 3 })
    );
}

#[test]
fn dedup_totals_floor_savings() {
    let t = dedup_totals(3, 100, 250, 200, 1);
    assert_eq!(t.total_blobs, 3);
    assert_eq!(t.total_bytes_referenced, 250);
    assert_eq!(t.bytes_saved, 150);
    let t = dedup_totals(3, 100, 0, 80, 0);
    assert_eq!(t.total_bytes_referenced, 80);
    assert_eq!(t.bytes_saved, 0);
}

#[test]
fn sequence_verifier_recomputes_hash_and_head() {
    let mut v = SequenceVerifier::new(4);
    v.begin_chunk();
    v.push_part(b"abc");
    assert!(v.chunk_size_ok(3));
    v.begin_chunk();
    v.push_part(b"de");
    v.push_part(b"f");
    assert!(!v.chunk_size_ok(2));
    assert!(v.chunk_size_ok(3));
    let (hash, head) = v.finish();
    assert_eq!(hash, blake3_hash_hex(b"abcdef"));
    assert_eq!(head, b"abcd".to_vec());
}

#[test]
fn ingest_ledger_hands_back_what_was_recorded_and_empties() {
    let mut ledger = IngestLedger::new();
    ledger.record_pinned(vec!["p1".to_string(), "p2".to_string()]);
    ledger.record_written(vec![("w1".to_string(), 10)]);
    ledger.record_pinned(vec!["p3".to_string()]);
    ledger.record_written(vec![("w2".to_string(), 20), ("w3".to_string(), 30)]);
    let (pinned, written) = ledger.take();
    assert_eq!(pinned, vec!["p1", "p2", "p3"]);
    assert_eq!(
        written,
        vec![("w1".to_string(), 10), ("w2".to_string(), 20), ("w3".to_string(), 30)]
    );
    let (pinned, written) = ledger.take();
    assert!(pinned.is_empty());
    assert!(written.is_empty());
}

#[test]
fn overlap_is_on_unless_disabled() {
    assert!(overlap_enabled(None));
    assert!(overlap_enabled(Some("1")));
    assert!(overlap_enabled(Some("true")));
    assert!(!overlap_enabled(Some("0")));
    assert!(!overlap_enabled(Some("false")));
    assert!(overlap_enabled(Some("FALSE")));
}

#[test]
fn range_plan_takes_sizes_as_u64() {
    // A negative size wraps to a huge chunk, which covers the rest of the
    // range; the scan stops there.
    let sizes = vec![-1i64, 5];
    let plan = select_chunk_ranges(&sizes, 4, 0, Some(10));
    assert_eq!(plan, vec![(0, 0, Some(10))]);
    // The scan stops before a wrapped chunk that the range does not reach.
    let sizes = vec![3i64, -1];
    let plan = select_chunk_ranges(&sizes, 0, 2, Some(3));
    assert_eq!(plan, vec![(0, 2, None)]);
}

#[test]
fn sequence_verifier_refuses_a_chunk_of_the_wrong_size() {
    let mut v = SequenceVerifier::new(4);
    v.begin_chunk();
    v.push_part(b"abc");
    assert!(v.end_chunk("h1", 3).is_ok());
    v.begin_chunk();
    v.push_part(b"de");
    assert_eq!(v.end_chunk("h2", 5).unwrap_err(), "Chunk h2 is 2 bytes, manifest declares 5");
}

#[test]
fn content_hasher_equals_one_shot_hash() {
    let mut h = oxicloud::hashing::ContentHasher::new();
    h.update(b"hello ");
    h.update(b"");
    h.update(b"world");
    assert_eq!(h.finish_hex(), blake3_hash_hex(b"hello world"));
    assert_eq!(oxicloud::hashing::ContentHasher::new().finish_hex(), blake3_hash_hex(b""));
}
