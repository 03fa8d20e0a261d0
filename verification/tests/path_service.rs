use oxicloud::path_service::{PathError, PathService};
use oxicloud::storage_path::StoragePath;

fn service() -> PathService {
    PathService::new("/storage".to_string())
}

#[test]
fn test_resolve_path() {
    let service = service();
    let storage_path = StoragePath::from_string("test/file.txt");
    let absolute = service.resolve_path(&storage_path).unwrap();
    assert_eq!(absolute, "/storage/test/file.txt");
}

#[test]
fn test_to_storage_path() {
    let service = service();
    let storage_path = service.to_storage_path("/storage/folder/file.txt").unwrap();
    assert_eq!(storage_path.to_string(), "/folder/file.txt");
}

#[test]
fn test_is_in_root() {
    let service = service();
    let root_path = StoragePath::from_string("file.txt");
    let nested_path = StoragePath::from_string("folder/file.txt");
    assert!(service.is_in_root(&root_path));
    assert!(!service.is_in_root(&nested_path));
}

#[test]
fn test_is_direct_child() {
    let service = service();
    let parent = StoragePath::from_string("folder");
    let child = StoragePath::from_string("folder/file.txt");
    let not_child = StoragePath::from_string("folder2/file.txt");
    assert!(service.is_direct_child(&parent, &child));
    assert!(!service.is_direct_child(&parent, &not_child));
}

#[test]
fn test_create_file_path() {
    let service = service();
    let folder_path = StoragePath::from_string("folder");
    let file_path = service.create_file_path(&folder_path, "file.txt");
    assert_eq!(file_path.to_string(), "/folder/file.txt");
}

#[test]
fn test_resolve_path_traversal_stripped_by_domain() {
    let service = service();
    let path = StoragePath::from_string("../../etc/passwd");
    let resolved = service.resolve_path(&path).unwrap();
    assert_eq!(resolved, "/storage/etc/passwd");
    assert!(resolved.starts_with("/storage"));
}

#[test]
fn test_resolve_path_normal_path_ok() {
    let service = service();
    let path = StoragePath::from_string("users/alice/documents/report.pdf");
    let resolved = service.resolve_path(&path).unwrap();
    assert_eq!(resolved, "/storage/users/alice/documents/report.pdf");
}

#[test]
fn test_resolve_path_root_ok() {
    let service = service();
    let path = StoragePath::root();
    let resolved = service.resolve_path(&path).unwrap();
    assert_eq!(resolved, "/storage");
}

#[test]
fn test_validate_path_rejects_dot_prefix() {
    let service = service();
    let path = StoragePath::from_string("folder/.hidden/file.txt");
    assert!(service.validate_path(&path).is_err());
}

#[test]
fn test_validate_path_allows_well_known() {
    let service = service();
    let path = StoragePath::from_string("folder/.well-known/caldav");
    assert!(service.validate_path(&path).is_ok());
}

#[test]
fn test_validate_path_rejects_dangerous_chars() {
    let service = service();
    for dangerous in &[
        "file:name",
        "file*name",
        "file?name",
        "file<name",
        "file>name",
        "file|name",
        "file\"name",
    ] {
        let path = StoragePath::new(vec![dangerous.to_string()]);
        assert!(
            service.validate_path(&path).is_err(),
            "validate_path should reject segment: {}",
            dangerous
        );
    }
}

#[test]
fn validate_path_reports_each_error_kind() {
    let service = service();
    let empty = StoragePath::new(vec!["a".to_string(), String::new()]);
    match service.validate_path(&empty) {
        Err(e @ PathError::EmptySegment(_)) => {
            assert_eq!(e.message(), "Path contains empty segments: /a/");
        }
        other => panic!("unexpected {other:?}"),
    }
    let hidden = StoragePath::new(vec![".git".to_string()]);
    assert!(matches!(service.validate_path(&hidden), Err(PathError::HiddenSegment(s)) if s == ".git"));
    let bad = StoragePath::new(vec!["a\\b".to_string()]);
    assert!(matches!(service.validate_path(&bad), Err(PathError::DangerousCharacters(s)) if s == "a\\b"));
}

#[test]
fn to_storage_path_outside_root_is_none() {
    let service = service();
    assert!(service.to_storage_path("/elsewhere/file.txt").is_none());
    let p = service.to_storage_path("/storage").unwrap();
    assert_eq!(p.to_string(), "/");
}

#[test]
fn storage_path_parent_and_join() {
    let p = StoragePath::from_string("/a/b/c");
    let parent = p.parent().unwrap();
    assert_eq!(parent.to_string(), "/a/b");
    assert!(StoragePath::root().parent().is_none());
    let joined = parent.join("d");
    assert_eq!(joined.to_string(), "/a/b/d");
}

#[test]
fn root_is_a_direct_child_of_the_root_only() {
    let service = service();
    let root = StoragePath::root();
    let folder = StoragePath::from_string("folder");
    assert!(service.is_direct_child(&root, &root));
    assert!(!service.is_direct_child(&folder, &root));
    assert!(service.is_direct_child(&root, &folder));
}

#[test]
fn resolved_path_maps_back_to_the_storage_path() {
    let service = service();
    let p = StoragePath::from_string("a/.well-known/c.txt");
    let physical = service.resolve_path(&p).unwrap();
    let back = service.to_storage_path(&physical).unwrap();
    assert!(back.same_as(&p));
}

#[test]
fn storage_path_text_parses_back() {
    let p = StoragePath::new(vec!["docs".to_string(), "a b".to_string(), ".well-known".to_string()]);
    let text = p.to_string();
    assert_eq!(text, "/docs/a b/.well-known");
    assert!(StoragePath::from_string(&text).same_as(&p));
    let root = StoragePath::root();
    assert!(StoragePath::from_string(&root.to_string()).same_as(&root));
}

#[test]
fn refusal_messages_name_the_segment() {
    let service = service();
    let hidden = StoragePath::new(vec!["ok".to_string(), ".git".to_string()]);
    assert_eq!(
        service.validate_path(&hidden).unwrap_err().message(),
        "Path segments cannot start with dot: .git"
    );
    let bad = StoragePath::new(vec!["x|y".to_string()]);
    assert_eq!(
        service.validate_path(&bad).unwrap_err().message(),
        "Path contains dangerous characters: x|y"
    );
    assert_eq!(
        PathError::EscapesRoot("/elsewhere".to_string()).message(),
        "Resolved path escapes storage root: /elsewhere"
    );
}

#[test]
fn segment_holding_a_separator_is_refused() {
    let service = service();
    let p = StoragePath::new(vec!["a/../../etc".to_string()]);
    assert!(matches!(service.validate_path(&p), Err(PathError::DangerousCharacters(s)) if s == "a/../../etc"));
    assert!(service.resolve_path(&p).is_err());
    let p = StoragePath::new(vec!["..".to_string()]);
    assert!(service.resolve_path(&p).is_err());
}
