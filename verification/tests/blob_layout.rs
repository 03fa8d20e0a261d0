use oxicloud::blob_layout::{
    cache_entry_weight, cached_path_in, cached_range_len, hex_prefixes, local_range_len,
    sync_group_size, LocalBlobBackend,
};

#[test]
fn local_layout_paths() {
    let b = LocalBlobBackend::new("/data", None);
    assert_eq!(b.blob_root(), "/data/.blobs");
    assert_eq!(b.temp_root(), "/data/.dedup_temp");
    assert_eq!(b.read_prefetch(), 2);
    assert_eq!(b.blob_path("abcdef"), "/data/.blobs/ab/abcdef.blob");
}

#[test]
fn prefetch_override() {
    assert_eq!(LocalBlobBackend::new("/d", Some("8")).read_prefetch(), 8);
    assert_eq!(LocalBlobBackend::new("/d", Some("0")).read_prefetch(), 1);
    assert_eq!(LocalBlobBackend::new("/d", Some("x")).read_prefetch(), 2);
}

#[test]
fn sync_dirs_dedup_prefixes() {
    let b = LocalBlobBackend::new("/s", None);
    let dirs = b.sync_dirs(&vec!["cd01".to_string(), "ab02".to_string(), "cd03".to_string()]);
    assert_eq!(dirs, vec!["/s/.blobs/ab", "/s/.blobs/cd"]);
}

#[test]
fn cache_paths_and_arithmetic() {
    assert_eq!(cached_path_in("/c", "ffee"), "/c/ff/ffee.blob");
    assert_eq!(cached_path_in("/c", "f"), "/c/f/f.blob");
    assert_eq!(cache_entry_weight(0), 1);
    assert_eq!(cache_entry_weight(5_000_000_000), u32::MAX);
    assert_eq!(cache_entry_weight(7), 7);
    assert_eq!(cached_range_len(10, Some(19)), 10);
    assert_eq!(cached_range_len(10, None), u64::MAX);
    assert_eq!(local_range_len(10, Some(19)), Some(9));
    assert_eq!(local_range_len(10, Some(5)), Some(0));
    assert_eq!(sync_group_size(1), 1);
    assert_eq!(sync_group_size(16), 1);
    assert_eq!(sync_group_size(17), 2);
}

#[test]
fn hex_prefix_table() {
    let p = hex_prefixes();
    assert_eq!(p.len(), 256);
    assert_eq!(p[0], "00");
    assert_eq!(p[171], "ab");
    assert_eq!(p[255], "ff");
}
