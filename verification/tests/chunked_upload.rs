use oxicloud::chunked_upload::{
    ordered_chunk_listing, ordered_chunk_names, ChunkInfo, NextcloudChunkedUploadService,
    UploadError,
};

#[test]
fn session_and_chunk_paths_stay_inside_base() {
    let svc = NextcloudChunkedUploadService::new("/up".to_string());
    assert_eq!(svc.safe_session_dir("alice", "upload-001").unwrap(), "/up/alice/upload-001");
    assert_eq!(
        svc.safe_chunk_path("alice", "upload-001", "00001").unwrap(),
        "/up/alice/upload-001/00001"
    );
    let stub = NextcloudChunkedUploadService::new_stub();
    assert_eq!(stub.base_dir, "./storage/.uploads/nextcloud");
}

#[test]
fn traversal_components_are_refused() {
    let svc = NextcloudChunkedUploadService::new("/up".to_string());
    for bad in ["", ".", "..", "a/b", "a\\b", "x..y"] {
        assert!(NextcloudChunkedUploadService::validate_path_component(bad, "l").is_err());
    }
    assert!(NextcloudChunkedUploadService::validate_path_component(".hidden", "l").is_ok());
    let UploadError::InvalidComponent(label) = svc.safe_session_dir("..", "u").unwrap_err();
    assert_eq!(label, "username");
    let UploadError::InvalidComponent(label) = svc.safe_session_dir("a", "u/v").unwrap_err();
    assert_eq!(label, "upload_id");
    let UploadError::InvalidComponent(label) = svc.safe_chunk_path("..", "u", "c/d").unwrap_err();
    assert_eq!(label, "chunk_name");
    let UploadError::InvalidComponent(label) = svc.safe_chunk_path("a", "u/v", "c").unwrap_err();
    assert_eq!(label, "upload_id");
    assert_eq!(
        svc.safe_chunk_path("", "u", "c").unwrap_err().message(),
        "ChunkedUpload: invalid username: contains path traversal characters"
    );
}

#[test]
fn test_chunk_paths_sorted_regardless_of_upload_order() {
    let names = vec!["00003".to_string(), "00001".to_string(), "00002".to_string()];
    assert_eq!(ordered_chunk_names(names), vec!["00001", "00002", "00003"]);
}

#[test]
fn test_internal_markers_excluded_from_chunk_paths() {
    let names = vec![".assembled".to_string(), "00001".to_string(), ".file".to_string()];
    assert_eq!(ordered_chunk_names(names), vec!["00001"]);
}

#[test]
fn chunk_listing_sorted_without_markers() {
    let c = |n: &str, s: u64| ChunkInfo { name: n.to_string(), size: s, mtime: 7 };
    let out = ordered_chunk_listing(vec![c("00002", 2), c(".file", 0), c("00001", 1)]);
    let names: Vec<&str> = out.iter().map(|c| c.name.as_str()).collect();
    assert_eq!(names, vec!["00001", "00002"]);
    assert_eq!(out[0].size, 1);
}

#[test]
fn chunk_names_assemble_in_numeric_order() {
    let names = vec!["10".to_string(), "2".to_string(), "1".to_string()];
    assert_eq!(ordered_chunk_names(names), vec!["1", "2", "10"]);
    let names = vec![
        "b".to_string(),
        "001".to_string(),
        "1".to_string(),
        "a".to_string(),
        "0009".to_string(),
        "+3".to_string(),
    ];
    assert_eq!(ordered_chunk_names(names), vec!["001", "1", "0009", "+3", "a", "b"]);
}
