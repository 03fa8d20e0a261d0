//! The permission decision of the grant engine, as a sequence of lookups
//! driven by their results: a file or folder first consults the caller's
//! role on the resource's drive (the baseline floor), then grants on the
//! resource and its ancestors; a drive consults the drive role alone;
//! calendars, address books and playlists consult their own grants.
//!
//! Whether a role's permission bundle covers the requested permission is
//! decided by the caller of these functions and handed in as a `bool`.

use vstd::prelude::*;

verus! {

/// The resource a permission is checked on.
#[derive(Debug, Clone, Copy, PartialEq, Eq)]
pub enum AuthzResource {
    Folder(u128),
    File(u128),
    Drive(u128),
    Calendar(u128),
    AddressBook(u128),
    Playlist(u128),
}

/// The next lookup of a permission check, or its answer.
#[derive(Debug, Clone, Copy, PartialEq, Eq)]
pub enum AuthzStep {
    /// Find the drive the file or folder lives in.
    LookupDrive,
    /// Find the caller's role on this drive.
    DriveRole(u128),
    /// Look for a grant on the folder or one of its ancestors.
    FolderCascade(u128),
    /// Look for a grant on the file, its folder or one of its ancestors.
    FileCascade(u128),
    /// Look for a grant on a calendar.
    CalendarGrant(u128),
    /// Look for a grant on an address book.
    AddressBookGrant(u128),
    /// Look for a grant on a playlist.
    PlaylistGrant(u128),
    /// The answer.
    Decided(bool),
}

/// The first lookup of a check.
pub open spec fn first_step_of(r: AuthzResource) -> AuthzStep {
    match r {
        AuthzResource::Folder(_) => AuthzStep::LookupDrive,
        AuthzResource::File(_) => AuthzStep::LookupDrive,
        AuthzResource::Drive(d) => AuthzStep::DriveRole(d),
        AuthzResource::Calendar(id) => AuthzStep::CalendarGrant(id),
        AuthzResource::AddressBook(id) => AuthzStep::AddressBookGrant(id),
        AuthzResource::Playlist(id) => AuthzStep::PlaylistGrant(id),
    }
}

pub fn first_step(r: AuthzResource) -> (s: AuthzStep)
    ensures
        s == first_step_of(r),
{
    match r {
        AuthzResource::Folder(_) => AuthzStep::LookupDrive,
        AuthzResource::File(_) => AuthzStep::LookupDrive,
        AuthzResource::Drive(d) => AuthzStep::DriveRole(d),
        AuthzResource::Calendar(id) => AuthzStep::CalendarGrant(id),
        AuthzResource::AddressBook(id) => AuthzStep::AddressBookGrant(id),
        AuthzResource::Playlist(id) => AuthzStep::PlaylistGrant(id),
    }
}

/// After the drive lookup of a file or folder: a resource that does not
/// exist grants nothing; otherwise the caller's role on its drive is next.
pub open spec fn after_drive_lookup_of(drive: Option<u128>) -> AuthzStep {
    match drive {
        Some(d) => AuthzStep::DriveRole(d),
        None => AuthzStep::Decided(false),
    }
}

pub fn after_drive_lookup(drive: Option<u128>) -> (s: AuthzStep)
    ensures
        s == after_drive_lookup_of(drive),
{
    match drive {
        Some(d) => AuthzStep::DriveRole(d),
        None => AuthzStep::Decided(false),
    }
}

/// After the drive-role lookup: a role covering the permission allows;
/// otherwise a drive is refused and a file or folder falls through to the
/// grants on it and its ancestors.
pub open spec fn after_drive_role_of(r: AuthzResource, role_covers: bool) -> AuthzStep {
    if role_covers {
        AuthzStep::Decided(true)
    } else {
        match r {
            AuthzResource::Folder(id) => AuthzStep::FolderCascade(id),
            AuthzResource::File(id) => AuthzStep::FileCascade(id),
            _ => AuthzStep::Decided(false),
        }
    }
}

pub fn after_drive_role(r: AuthzResource, role_covers: bool) -> (s: AuthzStep)
    ensures
        s == after_drive_role_of(r, role_covers),
{
    if role_covers {
        AuthzStep::Decided(true)
    } else {
        match r {
            AuthzResource::Folder(id) => AuthzStep::FolderCascade(id),
            AuthzResource::File(id) => AuthzStep::FileCascade(id),
            _ => AuthzStep::Decided(false),
        }
    }
}

/// After a grant lookup: allowed exactly when a grant was found.
pub open spec fn after_grant_lookup_of(found: bool) -> AuthzStep {
    AuthzStep::Decided(found)
}

pub fn after_grant_lookup(found: bool) -> (s: AuthzStep)
    ensures
        s == after_grant_lookup_of(found),
{
    AuthzStep::Decided(found)
}

/// The answer a check reaches by following its steps, given what each
/// lookup returns: the resource's drive (`None` when it does not exist),
/// whether the caller's role on a drive covers the permission, and whether
/// a grant is found on the resource (or its ancestors).
pub open spec fn run_check(r: AuthzResource, drive: Option<u128>, role_covers: spec_fn(u128) -> bool, grant_found: bool) -> bool {
    match first_step_of(r) {
        AuthzStep::LookupDrive => match after_drive_lookup_of(drive) {
            AuthzStep::DriveRole(d) => match after_drive_role_of(r, role_covers(d)) {
                AuthzStep::Decided(b) => b,
                _ => grant_found,
            },
            _ => false,
        },
        AuthzStep::DriveRole(d) => match after_drive_role_of(r, role_covers(d)) {
            AuthzStep::Decided(b) => b,
            _ => grant_found,
        },
        _ => grant_found,
    }
}

/// The drive role is a floor: on a file or folder that exists, a caller
/// whose role on its drive covers the permission is allowed, whatever the
/// grants; a file or folder that does not exist allows nobody; otherwise a
/// file or folder is allowed exactly when a grant is found. A drive allows
/// exactly the callers whose drive role covers the permission; the other
/// resources allow exactly on a grant.
pub proof fn law_drive_role_floor(r: AuthzResource, drive: Option<u128>, role_covers: spec_fn(u128) -> bool, grant_found: bool)
    ensures
        (r is Folder || r is File) ==> run_check(r, drive, role_covers, grant_found) == match drive {
            None => false,
            Some(d) => role_covers(d) || grant_found,
        },
        r matches AuthzResource::Drive(d) ==> run_check(r, drive, role_covers, grant_found) == role_covers(d),
        (r is Calendar || r is AddressBook || r is Playlist) ==> run_check(r, drive, role_covers, grant_found)
            == grant_found,
{
}

/// The user's subject set: the user, the internal group unless the user is
/// external (an unknown user counts as external), and the user's groups.
pub open spec fn in_subject_set(user: u128, internal_group: u128, is_external: Option<bool>, groups: Seq<u128>, x: u128) -> bool {
    x == user || (is_external == Some(false) && x == internal_group) || groups.contains(x)
}

fn add_once(v: &mut Vec<u128>, x: u128)
    ensures
        final(v)@ == if old(v)@.contains(x) { old(v)@ } else { old(v)@.push(x) },
{
    let mut i: usize = 0;
    while i < v.len()
        invariant
            i <= v@.len(),
            v@ == old(v)@,
            forall|j: int| 0 <= j < i ==> v@[j] != x,
        decreases v@.len() - i,
    {
        if v[i] == x {
            return;
        }
        i += 1;
    }
    v.push(x);
}

/// The ids a user's grants may be held by, each once.
pub fn expand_user(user: u128, internal_group: u128, is_external: Option<bool>, groups: &Vec<u128>) -> (r: Vec<u128>)
    ensures
        r@.no_duplicates(),
        forall|x: u128| #[trigger] r@.contains(x) <==> in_subject_set(user, internal_group, is_external, groups@, x),
{
    let mut r: Vec<u128> = Vec::new();
    r.push(user);
    let external = match is_external {
        Some(e) => e,
        None => true,
    };
    assert(r@ =~= seq![user]);
    if !external {
        add_once(&mut r, internal_group);
    }
    proof {
        assert(groups@.take(0) =~= Seq::<u128>::empty());
        assert forall|x: u128| #[trigger] r@.contains(x) <==> (x == user || (is_external == Some(false) && x
            == internal_group) || groups@.take(0).contains(x)) by {
            if r@.contains(x) {
                let j = choose|j: int| 0 <= j < r@.len() && r@[j] == x;
            }
            if x == user {
                assert(r@[0] == user);
            }
            if is_external == Some(false) && x == internal_group && x != user {
                assert(r@[1] == x);
            }
        }
    }
    let mut i: usize = 0;
    while i < groups.len()
        invariant
            i <= groups@.len(),
            r@.no_duplicates(),
            forall|x: u128| #[trigger] r@.contains(x) <==> (x == user || (is_external == Some(false) && x
                == internal_group) || groups@.take(i as int).contains(x)),
        decreases groups@.len() - i,
    {
        let ghost before = r@;
        add_once(&mut r, groups[i]);
        proof {
            assert forall|x: u128| #[trigger] r@.contains(x) <==> (x == user || (is_external == Some(false)
                && x == internal_group) || groups@.take(i + 1).contains(x)) by {
                crate::seq_facts::lemma_contains_drop_last(groups@.take(i + 1), x);
                assert(groups@.take(i + 1).drop_last() =~= groups@.take(i as int));
                if !before.contains(groups@[i as int]) {
                    crate::seq_facts::lemma_contains_drop_last(r@, x);
                    assert(r@.drop_last() =~= before);
                }
            }
            if !before.contains(groups@[i as int]) {
                assert forall|a: int, b: int| 0 <= a < b < r@.len() implies r@[a] != r@[b] by {
                    if b == r@.len() - 1 {
                        assert(before.contains(r@[a]));
                    }
                }
            }
        }
        i += 1;
    }
    proof {
        assert(groups@.take(i as int) =~= groups@);
    }
    r
}

/// The resource a grant-cascade step looks up, if it is one.
pub open spec fn cascade_target(s: AuthzStep) -> Option<AuthzResource> {
    match s {
        AuthzStep::FolderCascade(id) => Some(AuthzResource::Folder(id)),
        AuthzStep::FileCascade(id) => Some(AuthzResource::File(id)),
        _ => None,
    }
}

/// Past the drive-role floor: a covering role allows any resource; a file
/// or folder whose drive role falls short is looked up in the grant cascade
/// of that very resource and of its own kind (a file shared directly is
/// found by the file cascade); any other resource is refused.
pub proof fn law_cascade_on_same_resource(r: AuthzResource)
    ensures
        after_drive_role_of(r, true) == AuthzStep::Decided(true),
        (r is Folder || r is File) ==> cascade_target(after_drive_role_of(r, false)) == Some(r),
        !(r is Folder || r is File) ==> after_drive_role_of(r, false) == AuthzStep::Decided(false),
{
}

} // verus!
