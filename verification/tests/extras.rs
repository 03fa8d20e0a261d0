use oxicloud::authz::after_grant_lookup;
use oxicloud::authz::AuthzStep;
use oxicloud::blob_layout::cached_blob_hash;
use oxicloud::chunk_ranges::select_chunk_ranges;
use oxicloud::content_index::{cached_text, drained_count, preview_of, PREVIEW_BYTES};
use oxicloud::faces::{face_blob_path, reusable_faces};
use oxicloud::maintenance::{blob_size_finding, freed_by_conversion, rechunk_total, IntegrityIssue};
use oxicloud::path_service::PathService;
use oxicloud::thumbnails::{on_file_updated, render_needed};
use oxicloud::tokens::access_token_times;
use oxicloud::webdav_lock::{parse_timeout, second_timeout};

#[test]
fn range_pieces_reassemble_the_requested_bytes() {
    let chunks: Vec<Vec<u8>> = vec![b"hello".to_vec(), Vec::new(), b" wide".to_vec(), b" world".to_vec()];
    let sizes: Vec<i64> = chunks.iter().map(|c| c.len() as i64).collect();
    let file: Vec<u8> = chunks.concat();
    for (start, end) in [(0u64, 16u64), (3, 9), (5, 5), (6, 40), (2, 3), (16, 20)] {
        let plan = select_chunk_ranges(&sizes, file.len() as i64, start, Some(end));
        let mut got = Vec::new();
        for (i, a, b) in plan {
            let c = &chunks[i];
            got.extend_from_slice(&c[a as usize..b.map(|x| x as usize).unwrap_or(c.len())]);
        }
        let lo = (start as usize).min(file.len());
        let hi = (end as usize).min(file.len());
        assert_eq!(got, file[lo..hi].to_vec(), "range {start}..{end}");
    }
}

#[test]
fn refreshed_timeouts_read_back() {
    for n in [0u64, 1, 59, 600, 86_400] {
        assert_eq!(parse_timeout(Some(&second_timeout(n))), n);
    }
    assert!(parse_timeout(Some("Second-4294967296000")) <= 86_400);
}

#[test]
fn root_path_is_kept() {
    let s = PathService::new("/srv/data".to_string());
    assert_eq!(s.get_root_path(), "/srv/data");
}

#[test]
fn small_policies() {
    assert_eq!(after_grant_lookup(true), AuthzStep::Decided(true));
    assert_eq!(cached_blob_hash("abcd.blob"), Some("abcd".to_string()));
    assert_eq!(cached_blob_hash("a.b.blob"), Some("a.b".to_string()));
    assert_eq!(cached_blob_hash(".blob"), None);
    assert_eq!(cached_blob_hash("abcd.tmp"), None);
    assert_eq!(cached_blob_hash("abcd"), None);
    assert_eq!(cached_text(Some("body".to_string()), "ok"), Some("body".to_string()));
    assert_eq!(cached_text(None, "ok"), Some(String::new()));
    assert_eq!(cached_text(Some("x".to_string()), "failed"), None);
    assert_eq!(drained_count(true, 12), 12);
    assert_eq!(drained_count(false, 12), 0);
    let long = "é".repeat(PREVIEW_BYTES);
    let p = preview_of(Some(&long)).unwrap();
    assert_eq!(p.len(), PREVIEW_BYTES);
    assert!(preview_of(None).is_none());
    assert_eq!(face_blob_path("/b", "abc"), "/b/ab/abc.blob");
    assert_eq!(reusable_faces(&vec![1, 2, 1, 3], 1), vec![1, 3]);
    assert!(matches!(blob_size_finding(&"h".to_string(), 3, None), Some(IntegrityIssue::BlobMissing { .. })));
    assert_eq!(blob_size_finding(&"h".to_string(), 3, Some(4)).unwrap().describe(), "h: size mismatch (expected: 3, actual: 4)");
    assert!(blob_size_finding(&"h".to_string(), 3, Some(3)).is_none());
    assert_eq!(freed_by_conversion(true, 9), 9);
    assert_eq!(freed_by_conversion(false, 9), 0);
    assert_eq!(rechunk_total(&vec![1, 2, 3]), 6);
    assert!(on_file_updated("image/gif"));
    assert!(!on_file_updated("application/pdf"));
    assert!(render_needed(&vec![true, false, true]));
    assert!(!render_needed(&vec![true, true, true]));
    assert_eq!(access_token_times(1_000, 3_600), (1_000, 4_600));
}
