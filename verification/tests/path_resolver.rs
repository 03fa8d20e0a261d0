use oxicloud::path_resolver::{lookup_key, resolve_outcome, ResolveError, ResolvedResource, ResolvedRow};

fn row(kind: &str) -> ResolvedRow {
    ResolvedRow {
        resource_type: kind.to_string(),
        id: "id-1".to_string(),
        name: "a.txt".to_string(),
        path: "docs/a.txt".to_string(),
        parent_id: None,
        drive_id: 5,
        created_at: 10,
        modified_at: 20,
        size: None,
        mime_type: None,
        folder_id: Some("f".to_string()),
        blob_hash: None,
        tree_modified_at: None,
    }
}

#[test]
fn lookup_keys_split_folder_and_name() {
    let k = lookup_key("/docs/sub/a.txt/").unwrap();
    assert_eq!(k.path, "docs/sub/a.txt");
    assert_eq!(k.filename, "a.txt");
    assert_eq!(k.folder_path, "docs/sub");
    let k = lookup_key("a.txt").unwrap();
    assert_eq!(k.folder_path, "");
    let k = lookup_key("//x//y").unwrap();
    assert_eq!(k.path, "x//y");
    assert_eq!(k.filename, "y");
    assert_eq!(k.folder_path, "x");
    assert!(lookup_key("///").is_none());
    assert!(lookup_key("").is_none());
}

#[test]
fn rows_become_files_or_folders() {
    let key = lookup_key("docs/a.txt").unwrap();
    match resolve_outcome(&key, Some(row("file"))).unwrap() {
        ResolvedResource::File(f) => {
            assert_eq!(f.mime_type, "application/octet-stream");
            assert_eq!(f.size, 0);
            assert_eq!(f.content_hash, "");
            assert_eq!(f.modified_at, 20);
        }
        ResolvedResource::Folder(_) => panic!("file row resolved as folder"),
    }
    match resolve_outcome(&key, Some(row("folder"))).unwrap() {
        ResolvedResource::Folder(f) => {
            assert_eq!(f.tree_modified_at, 20);
            assert!(!f.is_root);
        }
        ResolvedResource::File(_) => panic!("folder row resolved as file"),
    }
    match resolve_outcome(&key, None) {
        Err(ResolveError::NotFound(p)) => assert_eq!(p, "docs/a.txt"),
        _ => panic!("missing row resolved"),
    }
}
