use oxicloud::share_listing::{
    assemble_incoming, assemble_outgoing, guard_grant_row_cap, subject_rank_of, GrantListError,
    IncomingRow, ListingSort, OutgoingRow, ResourceKind,
};

fn perms(p: &[&str]) -> Option<Vec<String>> {
    Some(p.iter().map(|s| s.to_string()).collect())
}

fn out_row(rid: u128, sid: u128, subject_type: &str, display: &str, role: Option<Vec<String>>) -> OutgoingRow {
    OutgoingRow {
        resource_type: "file".to_string(),
        resource_id: rid,
        first_shared_at: 100 + rid as i64,
        subject_type: subject_type.to_string(),
        subject_id: sid,
        subject_display: display.to_string(),
        grant_id: rid * 1000 + sid,
        granted_at: 7,
        expires_at: None,
        role_permissions: role,
        sort_str: Some(format!("Name{rid}")),
        sort_int: Some(rid as i64),
        has_password: false,
        is_external: false,
    }
}

#[test]
fn row_cap_rejects_over_limit() {
    assert!(guard_grant_row_cap(10_000, "list").is_ok());
    match guard_grant_row_cap(10_001, "list_grants") {
        Err(GrantListError::TooManyGrants(m)) => {
            assert_eq!(m, "list_grants: too many grants (cap 10000)")
        }
        Ok(()) => panic!("over-cap listing accepted"),
    }
}

#[test]
fn parse_kinds_and_sorts() {
    assert_eq!(ResourceKind::parse("address_book"), Some(ResourceKind::AddressBook));
    assert_eq!(ResourceKind::parse("folder"), Some(ResourceKind::Folder));
    assert_eq!(ResourceKind::parse("nope"), None);
    assert_eq!(ListingSort::parse("granted_by"), ListingSort::GrantedBy);
    assert_eq!(ListingSort::parse("whatever"), ListingSort::Recent);
}

#[test]
fn subject_ranks_order_groups_users_links() {
    assert_eq!(subject_rank_of("group", false), 0);
    assert_eq!(subject_rank_of("user", true), 1);
    assert_eq!(subject_rank_of("token", true), 2);
    assert_eq!(subject_rank_of("token", false), 3);
    assert_eq!(subject_rank_of("external", false), 4);
}

#[test]
fn incoming_page_cuts_and_unions_roles() {
    let row = |rid: u128, roles: Vec<Option<Vec<String>>>| IncomingRow {
        resource_type: "folder".to_string(),
        resource_id: rid,
        roles,
        granted_at: rid as i64,
        granted_by: 9,
        sort_str: Some(format!("Dir{rid}")),
        sort_int: None,
    };
    let rows = vec![
        row(1, vec![perms(&["write", "read"]), perms(&["read", "share"]), None]),
        row(2, vec![perms(&["read"])]),
        row(3, vec![]),
    ];
    let (page, cursor) = assemble_incoming(rows, 2, ListingSort::Name, false);
    assert_eq!(page.len(), 2);
    assert_eq!(page[0].permissions, vec!["read", "share", "write"]);
    assert_eq!(page[1].resource_id, 2);
    let c = cursor.expect("a next page");
    assert_eq!(c.sort_by, "name");
    assert_eq!(c.resource_id, 2);
    assert_eq!(c.resource_name.as_deref(), Some("dir2"));
    let (_, none) = assemble_incoming(vec![row(5, vec![])], 2, ListingSort::Recent, true);
    assert!(none.is_none());
}

#[test]
fn outgoing_by_resource_groups_and_sorts_subjects() {
    let rows = vec![
        out_row(1, 11, "user", "bob", perms(&["read"])),
        out_row(1, 12, "group", "Team", perms(&["read", "write"])),
        out_row(1, 11, "user", "bob", perms(&["write", "read"])),
        out_row(2, 13, "token", "link", perms(&["read"])),
        out_row(3, 14, "user", "zed", None),
        out_row(4, 15, "user", "amy", perms(&["read"])),
    ];
    let (page, cursor) = assemble_outgoing(rows, 3, ListingSort::Name, false);
    // resources 1, 2, 3 are on the page; 3 has no valid row and is dropped
    let ids: Vec<u128> = page.iter().map(|s| s.resource_id).collect();
    assert_eq!(ids, vec![1, 2]);
    let r1 = &page[0];
    assert_eq!(r1.resource_type, ResourceKind::File);
    assert_eq!(r1.grants.len(), 2);
    assert_eq!(r1.grants[0].subject_id, 12);
    assert_eq!(r1.grants[1].subject_id, 11);
    assert_eq!(r1.grants[1].permissions, vec!["read", "write"]);
    let c = cursor.expect("a next page");
    assert_eq!(c.resource_id, 3);
    assert_eq!(c.resource_name.as_deref(), Some("name3"));
}

#[test]
fn outgoing_by_subject_pages_pairs() {
    let rows = vec![
        out_row(1, 11, "user", "bob", perms(&["read"])),
        out_row(1, 12, "group", "Team", perms(&["write"])),
        out_row(2, 11, "user", "bob", perms(&["read"])),
    ];
    let (page, cursor) = assemble_outgoing(rows, 2, ListingSort::Subject, false);
    assert_eq!(page.len(), 2);
    assert_eq!(page[0].grants.len(), 1);
    assert_eq!(page[1].grants[0].subject_id, 12);
    assert_eq!(page[1].first_shared_at, 7);
    let c = cursor.expect("a next page");
    assert_eq!(c.sort_by, "subject");
    assert_eq!(c.resource_id, 1);
}
