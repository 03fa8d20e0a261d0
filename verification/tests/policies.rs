use oxicloud::authz::{after_drive_lookup, after_drive_role, expand_user, first_step, AuthzResource, AuthzStep};
use oxicloud::faces::{
    dom, frame_from_run, index_job, is_image, is_video_mime, FaceError, FileEvent, NoopFaceAnalyzer,
    NoopVideoFrameService, ScrfdLayout, VideoFrameError,
};
use oxicloud::maintenance::{
    blob_hash_finding, delete_legacy_blob, legacy_release, manifest_chunk_finding, manifest_findings,
    manifest_report,
    manifest_release, GcTally, IntegrityIssue, LegacyRelease, ManifestRelease, RechunkSweep,
};
use oxicloud::retry::{after_failure, is_retryable, RetryStep};
use oxicloud::schedules::{purge_count, GrantCleanupService, SyncLogRetentionService};
use oxicloud::thumbnails::{
    blob_thumbnail_paths, check_decode_size, external_thumbnail_ready, is_jpeg, is_supported_image,
    max_concurrent_decodes, on_file_created, resize_filter, thumbnail_path, ResizeFilter,
    ThumbnailError, ThumbnailFormat, ThumbnailJob, ThumbnailSize,
};
use oxicloud::tokens::{
    cache_decoded, cache_lookup, cache_validation, cached_claims_usable, refresh_token_expiry_days,
    subject_id, token_cache_key, CacheLookup, TokenError,
};

#[test]
fn transient_errors_are_retried() {
    assert!(is_retryable("Connection RESET BY PEER"));
    assert!(is_retryable("HTTP 503 Service Unavailable"));
    assert!(is_retryable("operation Timeout"));
    assert!(!is_retryable("not found"));
    assert_eq!(after_failure(0, 3, "timeout"), RetryStep::Retry(1));
    assert_eq!(after_failure(3, 3, "timeout"), RetryStep::Fail);
    assert_eq!(after_failure(0, 3, "permission denied"), RetryStep::Fail);
}

#[test]
fn thumbnail_policy() {
    assert_eq!(ThumbnailSize::Icon.max_dimension(), 150);
    assert_eq!(ThumbnailSize::Large.dir_name(), "large");
    assert_eq!(ThumbnailSize::all().len(), 3);
    assert!(is_supported_image("image/webp"));
    assert!(!is_supported_image("image/svg+xml"));
    assert!(is_jpeg(&[0xFF, 0xD8, 0xFF, 0x00]));
    assert!(!is_jpeg(&[0xFF, 0xD8]));
    let root = "/t".to_string();
    assert_eq!(thumbnail_path(&root, "abc", ThumbnailSize::Preview, ThumbnailFormat::Jpeg), "/t/preview/abc.jpg");
    let all = blob_thumbnail_paths(&root, "h");
    assert_eq!(all[0], "/t/icon/h.webp");
    assert_eq!(all[5], "/t/large/h.jpg");
    assert!(check_decode_size(5000, 10000).is_ok());
    match check_decode_size(10000, 5001) {
        Err(ThumbnailError::ImageError(m)) => {
            assert_eq!(m, "Image too large for thumbnail: 10000×5001 (50 MP, max 50000000)")
        }
        _ => panic!("oversized image accepted"),
    }
    assert_eq!(on_file_created(false, "image/png", true), ThumbnailJob::Skip);
    assert_eq!(on_file_created(true, "image/png", true), ThumbnailJob::RenderImage);
    assert_eq!(on_file_created(true, "video/mp4", true), ThumbnailJob::RenderVideoFrame);
    assert_eq!(on_file_created(true, "video/mp4", false), ThumbnailJob::Skip);
    assert_eq!(max_concurrent_decodes(Some("3"), 16), 3);
    assert_eq!(max_concurrent_decodes(Some("0"), 1), 2);
    assert_eq!(max_concurrent_decodes(None, 8), 8);
}

#[test]
fn permission_steps() {
    assert_eq!(first_step(AuthzResource::File(1)), AuthzStep::LookupDrive);
    assert_eq!(first_step(AuthzResource::Drive(4)), AuthzStep::DriveRole(4));
    assert_eq!(first_step(AuthzResource::Playlist(2)), AuthzStep::PlaylistGrant(2));
    assert_eq!(after_drive_lookup(None), AuthzStep::Decided(false));
    assert_eq!(after_drive_lookup(Some(9)), AuthzStep::DriveRole(9));
    assert_eq!(after_drive_role(AuthzResource::Folder(3), true), AuthzStep::Decided(true));
    assert_eq!(after_drive_role(AuthzResource::Folder(3), false), AuthzStep::FolderCascade(3));
    assert_eq!(after_drive_role(AuthzResource::Drive(3), false), AuthzStep::Decided(false));
    let mut set = expand_user(1, 99, Some(false), &vec![5, 1, 5]);
    set.sort();
    assert_eq!(set, vec![1, 5, 99]);
    let set = expand_user(1, 99, None, &vec![]);
    assert_eq!(set, vec![1]);
}

#[test]
fn maintenance_findings_and_tallies() {
    let (issues, probe) = manifest_findings("0123456789abcdef", 2, &vec![1, 2], 4);
    assert!(probe);
    assert_eq!(issues[0].describe(), "Manifest 0123456789ab: total_size 4 != sum of chunk_sizes 3");
    let (issues, probe) = manifest_findings("ab", 3, &vec![1, 2], 3);
    assert!(!probe);
    assert_eq!(issues[0].describe(), "Manifest ab: chunk_hashes/chunk_sizes length mismatch");
    let f = manifest_chunk_finding("aaaaaaaaaaaaaaaa", "bbbbbbbbbbbbbbbb", -1, Some(3)).unwrap();
    assert_eq!(
        f.describe(),
        "Manifest aaaaaaaaaaaa chunk bbbbbbbbbbbb: size mismatch (expected -1, actual 3)"
    );
    assert!(manifest_chunk_finding("a", "b", 3, Some(3)).is_none());
    let h = "hh".to_string();
    assert!(matches!(blob_hash_finding(&h, Ok("hh".to_string())), None));
    let f = blob_hash_finding(&h, Err("boom".to_string())).unwrap();
    assert!(matches!(f, IntegrityIssue::BlobReadError { .. }));
    assert_eq!(f.describe(), "hh: read error (boom)");
    let mut t = GcTally::new();
    t.add_batch(&vec![10, 20]);
    t.add_batch(&vec![5]);
    assert_eq!((t.deleted, t.bytes), (3, 35));
    let mut sweep = RechunkSweep::new();
    sweep.record_success(100);
    assert!(!sweep.record_failure("bad".to_string()));
    let r = sweep.report();
    assert_eq!((r.migrated, r.failed, r.freed_bytes), (1, 1, 100));
    assert_eq!(sweep.failed_hashes(), &vec!["bad".to_string()]);
    assert!(delete_legacy_blob(true, &"x".to_string(), &vec!["y".to_string()]));
    assert!(!delete_legacy_blob(true, &"x".to_string(), &vec!["x".to_string()]));
    assert_eq!(manifest_release(Some(1)), ManifestRelease::DeleteManifest);
    assert_eq!(manifest_release(Some(3)), ManifestRelease::Decrement);
    assert_eq!(manifest_release(None), ManifestRelease::Missing);
    assert_eq!(legacy_release(Some(1)), LegacyRelease::Delete);
    assert_eq!(legacy_release(Some(4)), LegacyRelease::Update(3));
}

#[test]
fn daemon_settings() {
    let s = SyncLogRetentionService::new(30, 0);
    assert_eq!(s.sweep_interval_hours(), 1);
    assert_eq!(s.retention_days(), 30);
    assert_eq!(s.cutoff(3_000_000), 3_000_000 - 30 * 86_400);
    assert_eq!(s.interval_secs(), 3600);
    let g = GrantCleanupService::new(14, 0);
    assert_eq!(g.interval_hours(), 1);
    assert_eq!(g.purge_grace(None), 14);
    assert_eq!(g.purge_grace(Some(2)), 2);
    assert_eq!(purge_count::<String>(Ok(7)), 7);
    assert_eq!(purge_count::<String>(Err("db".to_string())), 0);
}

#[test]
fn faces_and_video_policy() {
    assert_eq!(ScrfdLayout::from_num_outputs(9).unwrap().use_kps, true);
    assert_eq!(ScrfdLayout::from_num_outputs(10).unwrap().strides(), vec![8, 16, 32, 64, 128]);
    assert!(ScrfdLayout::from_num_outputs(7).is_none());
    assert!(is_image("image/heic"));
    assert!(!is_image("imag"));
    let id = "a1a2a3a4-b1b2-c1c2-d1d2-d3d4d5d6d7d8";
    let job = index_job(FileEvent::Created { is_new_blob: false }, "image/png", true, id).unwrap();
    assert!(job.reuse_dedup);
    assert_eq!(job.file_id, 0xa1a2a3a4b1b2c1c2d1d2d3d4d5d6d7d8);
    assert!(index_job(FileEvent::Updated, "image/png", false, id).is_none());
    assert!(index_job(FileEvent::Updated, "text/plain", true, id).is_none());
    assert!(index_job(FileEvent::Updated, "image/png", true, "not-a-uuid").is_none());
    assert!(!NoopFaceAnalyzer.is_ready());
    assert!(NoopFaceAnalyzer.analyze(b"x").unwrap().is_empty());
    assert!(!NoopVideoFrameService.is_supported_video("video/mp4"));
    assert!(NoopVideoFrameService.extract_frame("/v").is_err());
    let FaceError::Internal { context, message } = dom("bad model".to_string());
    assert_eq!((context.as_str(), message.as_str()), ("Faces", "bad model"));
}

#[test]
fn token_policy() {
    assert!(cached_claims_usable(11, 10));
    assert!(!cached_claims_usable(10, 10));
    assert!(cache_validation(100, 69));
    assert!(!cache_validation(100, 70));
    assert_eq!(refresh_token_expiry_days(86_400 * 3 + 5), 3);
    assert_eq!(refresh_token_expiry_days(-86_401), -1);
    assert_eq!(subject_id("not a uuid"), 0);
    assert_eq!(subject_id("00000000-0000-0000-0000-000000000001"), 1);
    assert_eq!(token_cache_key("abc"), <[u8; 32]>::from(blake3::hash(b"abc")));
}

#[test]
fn resize_filter_per_size_and_on_upscale() {
    assert_eq!(resize_filter(ThumbnailSize::Icon, 4000, 3000, 150, 112), ResizeFilter::Bilinear);
    assert_eq!(resize_filter(ThumbnailSize::Preview, 4000, 3000, 400, 300), ResizeFilter::Lanczos3);
    assert_eq!(resize_filter(ThumbnailSize::Large, 4000, 3000, 800, 600), ResizeFilter::Lanczos3);
    assert_eq!(resize_filter(ThumbnailSize::Large, 640, 480, 800, 600), ResizeFilter::CatmullRom);
    assert_eq!(resize_filter(ThumbnailSize::Icon, 100, 200, 150, 150), ResizeFilter::CatmullRom);
}

#[test]
fn external_thumbnail_stored_as_is_only_when_small_jpeg() {
    let jpeg = [0xFFu8, 0xD8, 0xFF, 0xE0];
    assert!(external_thumbnail_ready(&jpeg, Some((150, 100)), ThumbnailSize::Icon));
    assert!(!external_thumbnail_ready(&jpeg, Some((151, 100)), ThumbnailSize::Icon));
    assert!(external_thumbnail_ready(&jpeg, Some((151, 100)), ThumbnailSize::Preview));
    assert!(!external_thumbnail_ready(&jpeg, None, ThumbnailSize::Large));
    assert!(!external_thumbnail_ready(&[0x89, 0x50, 0x4E, 0x47], Some((10, 10)), ThumbnailSize::Large));
    assert!(!external_thumbnail_ready(&[0xFF], Some((10, 10)), ThumbnailSize::Large));
}

#[test]
fn video_types_are_any_video_prefix() {
    assert!(is_video_mime("video/mp4"));
    assert!(is_video_mime("video/quicktime"));
    assert!(is_video_mime("video/"));
    assert!(!is_video_mime("image/png"));
    assert!(!is_video_mime("Video/mp4"));
    assert!(!is_video_mime("vide"));
}

#[test]
fn ffmpeg_output_must_be_a_png_of_a_successful_run() {
    let png = vec![0x89u8, b'P', b'N', b'G', b'\r', b'\n', 0x1A, b'\n', 1, 2, 3];
    assert_eq!(frame_from_run(true, "exit status: 0", "", png.clone()).ok(), Some(png.clone()));

    match frame_from_run(false, "exit status: 1", "  bad input\n", png) {
        Err(VideoFrameError::Internal { context, message }) => {
            assert_eq!(context, "VideoFrame");
            assert_eq!(message, "ffmpeg exited exit status: 1: bad input");
        }
        other => panic!("unexpected {other:?}"),
    }
    match frame_from_run(true, "exit status: 0", "", b"GIF89a..".to_vec()) {
        Err(VideoFrameError::Internal { message, .. }) => {
            assert_eq!(message, "ffmpeg produced no decodable frame");
        }
        other => panic!("unexpected {other:?}"),
    }
    assert!(frame_from_run(true, "exit status: 0", "", vec![0x89, b'P']).is_err());
}

#[test]
fn validation_cache_steps() {
    assert_eq!(cache_lookup(Some(101), 100), CacheLookup::Reuse);
    assert_eq!(cache_lookup(Some(100), 100), CacheLookup::EvictAndDecode);
    assert_eq!(cache_lookup(None, 100), CacheLookup::Decode);
    assert!(cache_decoded(&Ok(131), 100));
    assert!(!cache_decoded(&Ok(130), 100));
    assert!(!cache_decoded(&Err(TokenError::Expired), 100));
    assert!(!cache_decoded(&Err(TokenError::Invalid("bad".to_string())), 0));
    assert!(cache_validation(i64::MAX, i64::MIN));
    assert!(!cache_validation(i64::MIN, i64::MAX));
}

#[test]
fn manifest_report_lists_every_finding_in_order() {
    let hashes = vec!["c1".to_string(), "c2".to_string(), "c3".to_string()];
    let lines: Vec<String> = manifest_report("file", &hashes, &vec![1, 2, 3], 7, &vec![Some(1), None, Some(4)])
        .iter()
        .map(|i| i.describe())
        .collect();
    assert_eq!(
        lines,
        vec![
            "Manifest file: total_size 7 != sum of chunk_sizes 6",
            "Manifest file chunk c2: missing in backend",
            "Manifest file chunk c3: size mismatch (expected 3, actual 4)",
        ]
    );
    assert!(manifest_report("file", &hashes, &vec![1, 2, 3], 6, &vec![Some(1), Some(2), Some(3)]).is_empty());
    let lines: Vec<String> =
        manifest_report("file", &hashes, &vec![1], 1, &vec![]).iter().map(|i| i.describe()).collect();
    assert_eq!(lines, vec!["Manifest file: chunk_hashes/chunk_sizes length mismatch"]);
}
