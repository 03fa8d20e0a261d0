//! Keyset-paginated share listings ("shared with me" and "shared by me"):
//! cutting a page out of the `limit + 1` rows the query fetched, the cursor
//! of the next page, and the assembly of grant rows into summaries.
//!
//! Permissions are carried by name. A row's role arrives already expanded
//! into its permission bundle, or as `None` when the role text is unknown.

use vstd::prelude::*;
use crate::ordering::{sort_by_key, sorted_by_key, TextKeyed};
use crate::seq_facts::{contains_string, first_occurrences, string_views};
use crate::text::{chars_equal, lowercase, push_text, str_chars, to_lowercase};

verus! {

/// Unbounded grant listings refuse to return more rows than this.
pub const MAX_GRANT_ROWS: i64 = 10_000;

/// Why a grant listing was refused.
#[derive(Debug, Clone)]
pub enum GrantListError {
    /// The listing exceeded [`MAX_GRANT_ROWS`]; the message names the
    /// operation.
    TooManyGrants(String),
}

/// Refuse a listing that returned more than [`MAX_GRANT_ROWS`] rows, rather
/// than hand back a truncated set.
pub fn guard_grant_row_cap(returned: usize, op: &str) -> (r: Result<(), GrantListError>)
    ensures
        r is Ok <==> returned <= MAX_GRANT_ROWS,
        r matches Err(GrantListError::TooManyGrants(m)) ==> m@ == op@ + ": too many grants (cap 10000)"@,
{
    if returned > 10_000 {
        let mut m = String::new();
        push_text(&mut m, op);
        push_text(&mut m, ": too many grants (cap 10000)");
        return Err(GrantListError::TooManyGrants(m));
    }
    Ok(())
}

/// The kinds of resource a grant can be on.
#[derive(Debug, Clone, Copy, PartialEq, Eq)]
pub enum ResourceKind {
    Folder,
    File,
    Drive,
    Calendar,
    AddressBook,
    Playlist,
}

/// The kind a `resource_type` column names, if any.
pub open spec fn resource_kind_of(s: Seq<char>) -> Option<ResourceKind> {
    if s == "folder"@ {
        Some(ResourceKind::Folder)
    } else if s == "file"@ {
        Some(ResourceKind::File)
    } else if s == "drive"@ {
        Some(ResourceKind::Drive)
    } else if s == "calendar"@ {
        Some(ResourceKind::Calendar)
    } else if s == "address_book"@ {
        Some(ResourceKind::AddressBook)
    } else if s == "playlist"@ {
        Some(ResourceKind::Playlist)
    } else {
        None
    }
}

fn text_is(v: &Vec<char>, lit: &str) -> (b: bool)
    ensures
        b == (v@ == lit@),
{
    let w = str_chars(lit);
    chars_equal(v, &w)
}

impl ResourceKind {
    /// Parse a `resource_type` column.
    pub fn parse(s: &str) -> (r: Option<ResourceKind>)
        ensures
            r == resource_kind_of(s@),
    {
        let v = str_chars(s);
        if text_is(&v, "folder") {
            Some(ResourceKind::Folder)
        } else if text_is(&v, "file") {
            Some(ResourceKind::File)
        } else if text_is(&v, "drive") {
            Some(ResourceKind::Drive)
        } else if text_is(&v, "calendar") {
            Some(ResourceKind::Calendar)
        } else if text_is(&v, "address_book") {
            Some(ResourceKind::AddressBook)
        } else if text_is(&v, "playlist") {
            Some(ResourceKind::Playlist)
        } else {
            None
        }
    }
}

/// How a listing is sorted, from its `sort_by` parameter.
#[derive(Debug, Clone, Copy, PartialEq, Eq)]
pub enum ListingSort {
    Name,
    Type,
    GrantedBy,
    Subject,
    Role,
    /// Anything else: by share time.
    Recent,
}

pub open spec fn listing_sort_of(s: Seq<char>) -> ListingSort {
    if s == "name"@ {
        ListingSort::Name
    } else if s == "type"@ {
        ListingSort::Type
    } else if s == "granted_by"@ {
        ListingSort::GrantedBy
    } else if s == "subject"@ {
        ListingSort::Subject
    } else if s == "role"@ {
        ListingSort::Role
    } else {
        ListingSort::Recent
    }
}

impl ListingSort {
    pub fn parse(s: &str) -> (r: ListingSort)
        ensures
            r == listing_sort_of(s@),
    {
        let v = str_chars(s);
        if text_is(&v, "name") {
            ListingSort::Name
        } else if text_is(&v, "type") {
            ListingSort::Type
        } else if text_is(&v, "granted_by") {
            ListingSort::GrantedBy
        } else if text_is(&v, "subject") {
            ListingSort::Subject
        } else if text_is(&v, "role") {
            ListingSort::Role
        } else {
            ListingSort::Recent
        }
    }
}

/// Where the next page of a listing starts.
#[derive(Debug, Clone)]
pub struct GrantCursor {
    pub sort_by: String,
    pub granted_at: i64,
    pub resource_id: u128,
    pub resource_name: Option<String>,
    pub sort_int: Option<i64>,
    pub reverse: bool,
}

/// The lowercased text of an optional sort column.
pub open spec fn lowered(s: Option<String>) -> Option<Seq<char>> {
    match s {
        Some(t) => Some(lowercase(t@)),
        None => None,
    }
}

pub open spec fn views_of(s: Option<String>) -> Option<Seq<char>> {
    match s {
        Some(t) => Some(t@),
        None => None,
    }
}

fn lower_opt(s: &Option<String>) -> (r: Option<String>)
    ensures
        views_of(r) == lowered(*s),
{
    match s {
        Some(t) => Some(to_lowercase(t.as_str())),
        None => None,
    }
}

fn copy_opt(s: &Option<String>) -> (r: Option<String>)
    ensures
        views_of(r) == views_of(*s),
{
    match s {
        Some(t) => Some(t.clone()),
        None => None,
    }
}

fn text_of(lit: &str) -> (r: String)
    ensures
        r@ == lit@,
{
    let mut r = String::new();
    push_text(&mut r, lit);
    assert(r@ =~= lit@);
    r
}

/// A cursor carries the listing's sort and direction, and the position of
/// the row it was taken from.
pub open spec fn cursor_at(c: GrantCursor, sort_by: Seq<char>, reverse: bool, granted_at: i64, resource_id: u128, name: Option<Seq<char>>, sort_int: Option<i64>) -> bool {
    &&& c.sort_by@ == sort_by
    &&& c.reverse == reverse
    &&& c.granted_at == granted_at
    &&& c.resource_id == resource_id
    &&& views_of(c.resource_name) == name
    &&& c.sort_int == sort_int
}

// ── Incoming ("shared with me") ─────────────────────────────────────────

/// One row of the incoming listing: a resource the caller can reach, with
/// every role that grants access to it.
#[derive(Debug, Clone)]
pub struct IncomingRow {
    pub resource_type: String,
    pub resource_id: u128,
    /// The permission bundle of each role, `None` for an unknown role.
    pub roles: Vec<Option<Vec<String>>>,
    pub granted_at: i64,
    pub granted_by: u128,
    pub sort_str: Option<String>,
    pub sort_int: Option<i64>,
}

/// A resource shared with the caller.
#[derive(Debug, Clone)]
pub struct IncomingGrantSummary {
    pub resource_type: ResourceKind,
    pub resource_id: u128,
    /// The union of the permissions of every known role, sorted by name,
    /// each once.
    pub permissions: Vec<String>,
    pub granted_at: i64,
    pub granted_by: u128,
}

/// The permission names of a list of roles, concatenated (unknown roles
/// contribute nothing).
pub open spec fn role_permissions(roles: Seq<Option<Vec<String>>>) -> Seq<Seq<char>>
    decreases roles.len(),
{
    if roles.len() == 0 {
        Seq::empty()
    } else {
        role_permissions(roles.drop_last()) + match roles.last() {
            Some(p) => string_views(p@),
            None => Seq::empty(),
        }
    }
}

/// The cursor of the incoming listing's next page, taken from the last row
/// of the page.
pub open spec fn incoming_cursor_ok(c: GrantCursor, sort: ListingSort, reverse: bool, r: IncomingRow) -> bool {
    match sort {
        ListingSort::Name => cursor_at(c, "name"@, reverse, r.granted_at, r.resource_id, lowered(r.sort_str), None),
        ListingSort::Type => cursor_at(c, "type"@, reverse, r.granted_at, r.resource_id, lowered(r.sort_str), r.sort_int),
        ListingSort::GrantedBy => cursor_at(c, "granted_by"@, reverse, r.granted_at, r.resource_id, views_of(r.sort_str), None),
        _ => cursor_at(c, "granted_at"@, reverse, r.granted_at, r.resource_id, None, None),
    }
}

pub fn incoming_cursor(sort: ListingSort, reverse: bool, r: &IncomingRow) -> (c: GrantCursor)
    ensures
        incoming_cursor_ok(c, sort, reverse, *r),
{
    match sort {
        ListingSort::Name => GrantCursor {
            sort_by: text_of("name"),
            granted_at: r.granted_at,
            resource_id: r.resource_id,
            resource_name: lower_opt(&r.sort_str),
            sort_int: None,
            reverse,
        },
        ListingSort::Type => GrantCursor {
            sort_by: text_of("type"),
            granted_at: r.granted_at,
            resource_id: r.resource_id,
            resource_name: lower_opt(&r.sort_str),
            sort_int: r.sort_int,
            reverse,
        },
        ListingSort::GrantedBy => GrantCursor {
            sort_by: text_of("granted_by"),
            granted_at: r.granted_at,
            resource_id: r.resource_id,
            resource_name: copy_opt(&r.sort_str),
            sort_int: None,
            reverse,
        },
        _ => GrantCursor {
            sort_by: text_of("granted_at"),
            granted_at: r.granted_at,
            resource_id: r.resource_id,
            resource_name: None,
            sort_int: None,
            reverse,
        },
    }
}

/// The page of `limit` rows out of the `limit + 1` fetched, and whether
/// another page follows.
pub fn cut_page<T>(rows: Vec<T>, limit: u32) -> (r: (Vec<T>, bool))
    ensures
        r.1 == (rows@.len() > limit),
        r.0@ == rows@.take(if rows@.len() > limit { limit as int } else { rows@.len() as int }),
{
    let has_next = rows.len() > limit as usize;
    let mut page = rows;
    page.truncate(limit as usize);
    proof {
        if !has_next {
            assert(rows@.take(rows@.len() as int) =~= rows@);
        }
    }
    (page, has_next)
}

/// Names sorted, each once; the same names as `v`.
pub fn sorted_names(v: Vec<String>) -> (r: Vec<String>)
    ensures
        sorted_by_key(r@),
        string_views(r@).no_duplicates(),
        forall|x: Seq<char>| #[trigger] string_views(r@).contains(x) <==> string_views(v@).contains(x),
{
    let ghost orig = v@;
    let sorted = sort_by_key(v);
    let ghost s = sorted@;
    proof {
        broadcast use vstd::seq_lib::group_to_multiset_ensures;
        assert forall|x: Seq<char>| #[trigger] string_views(s).contains(x) <==> string_views(orig).contains(x) by {
            if string_views(s).contains(x) {
                let j = choose|j: int| 0 <= j < s.len() && string_views(s)[j] == x;
                assert(s.contains(s[j]));
                assert(s.to_multiset().count(s[j]) > 0);
                assert(orig.to_multiset().count(s[j]) > 0);
                assert(orig.contains(s[j]));
                let k = choose|k: int| 0 <= k < orig.len() && orig[k] == s[j];
                assert(string_views(orig)[k] == x);
            }
            if string_views(orig).contains(x) {
                let j = choose|j: int| 0 <= j < orig.len() && string_views(orig)[j] == x;
                assert(orig.contains(orig[j]));
                assert(orig.to_multiset().count(orig[j]) > 0);
                assert(s.to_multiset().count(orig[j]) > 0);
                assert(s.contains(orig[j]));
                let k = choose|k: int| 0 <= k < s.len() && s[k] == orig[j];
                assert(string_views(s)[k] == x);
            }
        }
    }
    let mut out: Vec<String> = Vec::new();
    let mut i: usize = 0;
    while i < sorted.len()
        invariant
            i <= s.len(),
            sorted@ == s,
            sorted_by_key(s),
            sorted_by_key(out@),
            string_views(out@).no_duplicates(),
            forall|k: int, j: int| 0 <= k < out@.len() && i <= j < s.len() ==> crate::ordering::key_le(#[trigger] out@[k], #[trigger] s[j]),
            forall|x: Seq<char>| #[trigger] string_views(out@).contains(x) <==> string_views(s.take(i as int)).contains(x),
        decreases s.len() - i,
    {
        let present = contains_string(&out, &sorted[i]);
        let ghost before = out@;
        proof {
            assert(s.take(i + 1) =~= s.take(i as int).push(s[i as int]));
            assert(string_views(s.take(i + 1)) =~= string_views(s.take(i as int)).push(s[i as int]@));
        }
        if !present {
            out.push(sorted[i].clone());
            proof {
                assert(string_views(out@) =~= string_views(before).push(s[i as int]@));
                assert forall|a: int, b: int| 0 <= a < b < out@.len() implies crate::ordering::key_le(#[trigger] out@[a], #[trigger] out@[b]) by {
                    if b == out@.len() - 1 {
                        assert(out@[b] == s[i as int]);
                    }
                }
                assert forall|k: int, j: int| 0 <= k < out@.len() && i + 1 <= j < s.len() implies crate::ordering::key_le(#[trigger] out@[k], #[trigger] s[j]) by {
                    if k == out@.len() - 1 {
                        assert(out@[k] == s[i as int]);
                    } else {
                        assert(out@[k] == before[k]);
                    }
                }
                assert forall|a: int, b: int| 0 <= a < b < string_views(out@).len() implies string_views(out@)[a] != string_views(out@)[b] by {
                    if b == out@.len() - 1 {
                        assert(string_views(before).contains(string_views(out@)[a]));
                    }
                }
                assert forall|x: Seq<char>| #[trigger] string_views(out@).contains(x) <==> string_views(s.take(i + 1)).contains(x) by {
                    crate::seq_facts::lemma_contains_drop_last(string_views(out@), x);
                    crate::seq_facts::lemma_contains_drop_last(string_views(s.take(i + 1)), x);
                    assert(string_views(out@).drop_last() =~= string_views(before));
                    assert(string_views(s.take(i + 1)).drop_last() =~= string_views(s.take(i as int)));
                }
            }
        } else {
            proof {
                assert forall|x: Seq<char>| #[trigger] string_views(out@).contains(x) <==> string_views(s.take(i + 1)).contains(x) by {
                    crate::seq_facts::lemma_contains_drop_last(string_views(s.take(i + 1)), x);
                    assert(string_views(s.take(i + 1)).drop_last() =~= string_views(s.take(i as int)));
                }
            }
        }
        i += 1;
    }
    proof {
        assert(s.take(i as int) =~= s);
    }
    out
}

/// The permissions of `roles`: every known role's bundle, united.
pub fn union_role_permissions(roles: &Vec<Option<Vec<String>>>) -> (r: Vec<String>)
    ensures
        sorted_by_key(r@),
        string_views(r@).no_duplicates(),
        forall|x: Seq<char>| #[trigger] string_views(r@).contains(x) <==> role_permissions(roles@).contains(x),
{
    let mut all: Vec<String> = Vec::new();
    let mut i: usize = 0;
    while i < roles.len()
        invariant
            i <= roles@.len(),
            string_views(all@) == role_permissions(roles@.take(i as int)),
        decreases roles@.len() - i,
    {
        proof {
            assert(roles@.take(i + 1).drop_last() =~= roles@.take(i as int));
        }
        match &roles[i] {
            Some(p) => {
                let mut j: usize = 0;
                let ghost base = string_views(all@);
                while j < p.len()
                    invariant
                        j <= p@.len(),
                        string_views(all@) == base + string_views(p@).take(j as int),
                    decreases p@.len() - j,
                {
                    let ghost prev = all@;
                    all.push(p[j].clone());
                    assert(string_views(all@) =~= string_views(prev).push(p@[j as int]@));
                    assert(string_views(p@).take(j + 1) =~= string_views(p@).take(j as int).push(p@[j as int]@));
                    assert(string_views(all@) =~= base + string_views(p@).take(j + 1));
                    j += 1;
                }
                assert(string_views(p@).take(j as int) =~= string_views(p@));
            },
            None => {
                assert(string_views(all@) =~= role_permissions(roles@.take(i + 1)));
            },
        }
        i += 1;
    }
    assert(roles@.take(i as int) =~= roles@);
    sorted_names(all)
}

/// What an incoming row becomes: nothing when its resource type is unknown.
pub open spec fn incoming_summary_ok(r: IncomingRow, s: IncomingGrantSummary) -> bool {
    &&& resource_kind_of(r.resource_type@) == Some(s.resource_type)
    &&& s.resource_id == r.resource_id
    &&& s.granted_at == r.granted_at
    &&& s.granted_by == r.granted_by
    &&& sorted_by_key(s.permissions@)
    &&& string_views(s.permissions@).no_duplicates()
    &&& forall|x: Seq<char>| #[trigger] string_views(s.permissions@).contains(x) <==> role_permissions(r.roles@).contains(x)
}

pub fn incoming_summary(r: &IncomingRow) -> (s: Option<IncomingGrantSummary>)
    ensures
        s is None <==> resource_kind_of(r.resource_type@) is None,
        s matches Some(x) ==> incoming_summary_ok(*r, x),
{
    match ResourceKind::parse(r.resource_type.as_str()) {
        None => None,
        Some(kind) => Some(IncomingGrantSummary {
            resource_type: kind,
            resource_id: r.resource_id,
            permissions: union_role_permissions(&r.roles),
            granted_at: r.granted_at,
            granted_by: r.granted_by,
        }),
    }
}

/// The rows of `page` whose resource type is known, in order.
pub open spec fn known_incoming(page: Seq<IncomingRow>) -> Seq<IncomingRow>
    decreases page.len(),
{
    if page.len() == 0 {
        Seq::empty()
    } else if resource_kind_of(page.last().resource_type@) is Some {
        known_incoming(page.drop_last()).push(page.last())
    } else {
        known_incoming(page.drop_last())
    }
}

/// One page of the incoming listing from the `limit + 1` rows fetched: the
/// summaries of the page's rows (rows of unknown resource type dropped), and
/// the cursor of the next page when there is one.
pub fn assemble_incoming(rows: Vec<IncomingRow>, limit: u32, sort: ListingSort, reverse: bool) -> (r: (Vec<IncomingGrantSummary>, Option<GrantCursor>))
    ensures
        ({
            let page = rows@.take(if rows@.len() > limit { limit as int } else { rows@.len() as int });
            &&& r.1 is Some <==> (rows@.len() > limit && limit > 0)
            &&& r.1 matches Some(c) ==> incoming_cursor_ok(c, sort, reverse, page.last())
            &&& r.0@.len() == known_incoming(page).len()
            &&& forall|k: int| 0 <= k < r.0@.len() ==> incoming_summary_ok(#[trigger] known_incoming(page)[k], r.0@[k])
        }),
{
    let ghost n = rows@.len();
    let (page, has_next) = cut_page(rows, limit);
    let cursor = if has_next && page.len() > 0 {
        Some(incoming_cursor(sort, reverse, &page[page.len() - 1]))
    } else {
        None
    };
    let mut out: Vec<IncomingGrantSummary> = Vec::new();
    let mut i: usize = 0;
    while i < page.len()
        invariant
            i <= page@.len(),
            out@.len() == known_incoming(page@.take(i as int)).len(),
            forall|k: int| 0 <= k < out@.len() ==> incoming_summary_ok(#[trigger] known_incoming(page@.take(i as int))[k], out@[k]),
        decreases page@.len() - i,
    {
        proof {
            assert(page@.take(i + 1).drop_last() =~= page@.take(i as int));
        }
        let ghost prev = known_incoming(page@.take(i as int));
        match incoming_summary(&page[i]) {
            Some(s) => {
                out.push(s);
                proof {
                    assert(known_incoming(page@.take(i + 1)) == prev.push(page@[i as int]));
                    assert forall|k: int| 0 <= k < out@.len() implies incoming_summary_ok(#[trigger] known_incoming(page@.take(i + 1))[k], out@[k]) by {
                        if k < out@.len() - 1 {
                            assert(known_incoming(page@.take(i + 1))[k] == prev[k]);
                        }
                    }
                }
            },
            None => {
                assert(known_incoming(page@.take(i + 1)) == prev);
            },
        }
        i += 1;
    }
    assert(page@.take(i as int) =~= page@);
    (out, cursor)
}

// ── Outgoing ("shared by me") ───────────────────────────────────────────

/// One row of the outgoing listing: one grant of one subject on one
/// resource, with the page position of its resource.
#[derive(Debug, Clone)]
pub struct OutgoingRow {
    pub resource_type: String,
    pub resource_id: u128,
    pub first_shared_at: i64,
    pub subject_type: String,
    pub subject_id: u128,
    pub subject_display: String,
    pub grant_id: u128,
    pub granted_at: i64,
    pub expires_at: Option<i64>,
    /// The permission bundle of the grant's role, `None` for an unknown role.
    pub role_permissions: Option<Vec<String>>,
    pub sort_str: Option<String>,
    pub sort_int: Option<i64>,
    pub has_password: bool,
    pub is_external: bool,
}

/// What one subject holds on one resource.
#[derive(Debug, Clone)]
pub struct OutgoingGrantEntry {
    pub grant_id: u128,
    pub subject_type: String,
    pub subject_id: u128,
    pub subject_display: String,
    pub permissions: Vec<String>,
    pub granted_at: i64,
    pub expires_at: Option<i64>,
    pub has_password: bool,
    pub is_external: bool,
}

/// One shared resource with its grants.
#[derive(Debug, Clone)]
pub struct OutgoingResourceSummary {
    pub resource_type: ResourceKind,
    pub resource_id: u128,
    pub first_shared_at: i64,
    pub grants: Vec<OutgoingGrantEntry>,
}

/// A row takes part in the summaries only when its resource type and its
/// role are known.
pub open spec fn row_valid(r: OutgoingRow) -> bool {
    resource_kind_of(r.resource_type@) is Some && r.role_permissions is Some
}

pub open spec fn row_perms(r: OutgoingRow) -> Seq<Seq<char>> {
    match r.role_permissions {
        Some(p) => string_views(p@),
        None => Seq::empty(),
    }
}

/// The valid rows of subject `sid` on resource `rid`, in order.
pub open spec fn pair_rows(rows: Seq<OutgoingRow>, rid: u128, sid: u128) -> Seq<OutgoingRow>
    decreases rows.len(),
{
    if rows.len() == 0 {
        Seq::empty()
    } else {
        let r = rows.last();
        let p = pair_rows(rows.drop_last(), rid, sid);
        if row_valid(r) && r.resource_id == rid && r.subject_id == sid {
            p.push(r)
        } else {
            p
        }
    }
}

/// The valid rows on resource `rid`, in order.
pub open spec fn resource_rows(rows: Seq<OutgoingRow>, rid: u128) -> Seq<OutgoingRow>
    decreases rows.len(),
{
    if rows.len() == 0 {
        Seq::empty()
    } else {
        let r = rows.last();
        let p = resource_rows(rows.drop_last(), rid);
        if row_valid(r) && r.resource_id == rid {
            p.push(r)
        } else {
            p
        }
    }
}

/// All permission names of `rows`, concatenated in order.
pub open spec fn perms_flat(rows: Seq<OutgoingRow>) -> Seq<Seq<char>>
    decreases rows.len(),
{
    if rows.len() == 0 {
        Seq::empty()
    } else {
        perms_flat(rows.drop_last()) + row_perms(rows.last())
    }
}

pub open spec fn subject_ids(rows: Seq<OutgoingRow>) -> Seq<u128> {
    rows.map_values(|r: OutgoingRow| r.subject_id)
}

pub open spec fn resource_ids(rows: Seq<OutgoingRow>) -> Seq<u128> {
    rows.map_values(|r: OutgoingRow| r.resource_id)
}

pub open spec fn pair_keys(rows: Seq<OutgoingRow>) -> Seq<(u128, u128)> {
    rows.map_values(|r: OutgoingRow| (r.resource_id, r.subject_id))
}

/// The subjects holding a grant on `rid`, in order of first appearance.
pub open spec fn resource_subjects(rows: Seq<OutgoingRow>, rid: u128) -> Seq<u128> {
    first_occurrences(subject_ids(resource_rows(rows, rid)))
}

/// `e` is what subject `sid` holds on `rid`: taken from the first valid row
/// of the pair, with the permissions of all its rows united in order.
pub open spec fn entry_of(rows: Seq<OutgoingRow>, rid: u128, sid: u128, e: OutgoingGrantEntry) -> bool {
    let pr = pair_rows(rows, rid, sid);
    &&& pr.len() > 0
    &&& e.grant_id == pr[0].grant_id
    &&& e.subject_type@ == pr[0].subject_type@
    &&& e.subject_id == sid
    &&& e.subject_display@ == pr[0].subject_display@
    &&& e.granted_at == pr[0].granted_at
    &&& e.expires_at == pr[0].expires_at
    &&& e.has_password == pr[0].has_password
    &&& e.is_external == pr[0].is_external
    &&& string_views(e.permissions@) == first_occurrences(perms_flat(pr))
}

fn row_is_valid(r: &OutgoingRow) -> (b: bool)
    ensures
        b == row_valid(*r),
{
    ResourceKind::parse(r.resource_type.as_str()).is_some() && r.role_permissions.is_some()
}

fn copy_text(s: &String) -> (r: String)
    ensures
        r@ == s@,
{
    s.clone()
}

proof fn lemma_first_occurrences_push<A>(s: Seq<A>, x: A)
    ensures
        first_occurrences(s.push(x)) == if first_occurrences(s).contains(x) {
            first_occurrences(s)
        } else {
            first_occurrences(s).push(x)
        },
{
    assert(s.push(x).drop_last() =~= s);
}

fn u128_contains(v: &Vec<u128>, x: u128) -> (b: bool)
    ensures
        b == v@.contains(x),
{
    let mut i: usize = 0;
    while i < v.len()
        invariant
            i <= v@.len(),
            forall|j: int| 0 <= j < i ==> v@[j] != x,
        decreases v@.len() - i,
    {
        if v[i] == x {
            return true;
        }
        i += 1;
    }
    false
}

/// What subject `sid` holds on resource `rid`; `None` when no valid row
/// joins them.
pub fn pair_entry(rows: &Vec<OutgoingRow>, rid: u128, sid: u128) -> (r: Option<OutgoingGrantEntry>)
    ensures
        r is None <==> pair_rows(rows@, rid, sid).len() == 0,
        r matches Some(e) ==> entry_of(rows@, rid, sid, e),
{
    let mut entry: Option<OutgoingGrantEntry> = None;
    let mut i: usize = 0;
    while i < rows.len()
        invariant
            i <= rows@.len(),
            entry is None <==> pair_rows(rows@.take(i as int), rid, sid).len() == 0,
            entry matches Some(e) ==> entry_of(rows@.take(i as int), rid, sid, e),
        decreases rows@.len() - i,
    {
        let ghost pre = rows@.take(i as int);
        let ghost post = rows@.take(i + 1);
        proof {
            assert(post.drop_last() =~= pre);
            assert(post.last() == rows@[i as int]);
        }
        let r = &rows[i];
        if row_is_valid(r) && r.resource_id == rid && r.subject_id == sid {
            let ghost pr = pair_rows(pre, rid, sid);
            assert(pair_rows(post, rid, sid) == pr.push(*r));
            assert(pr.push(*r).drop_last() =~= pr);
            assert(perms_flat(pr.push(*r)) == perms_flat(pr) + row_perms(*r));
            let mut e = match entry {
                Some(e) => e,
                None => OutgoingGrantEntry {
                    grant_id: r.grant_id,
                    subject_type: copy_text(&r.subject_type),
                    subject_id: sid,
                    subject_display: copy_text(&r.subject_display),
                    permissions: Vec::new(),
                    granted_at: r.granted_at,
                    expires_at: r.expires_at,
                    has_password: r.has_password,
                    is_external: r.is_external,
                },
            };
            proof {
                if pr.len() == 0 {
                    assert(perms_flat(pr) =~= Seq::<Seq<char>>::empty());
                    assert(string_views(e.permissions@) =~= first_occurrences(perms_flat(pr)));
                }
                assert(pr.push(*r)[0] == if pr.len() == 0 { *r } else { pr[0] });
            }
            match &r.role_permissions {
                Some(p) => {
                    let ghost base = perms_flat(pr);
                    assert(row_perms(*r) == string_views(p@));
                    let mut j: usize = 0;
                    let ghost e0 = e;
                    while j < p.len()
                        invariant
                            j <= p@.len(),
                            string_views(e.permissions@) == first_occurrences(base + string_views(p@).take(j as int)),
                            e.grant_id == e0.grant_id,
                            e.subject_type == e0.subject_type,
                            e.subject_id == e0.subject_id,
                            e.subject_display == e0.subject_display,
                            e.granted_at == e0.granted_at,
                            e.expires_at == e0.expires_at,
                            e.has_password == e0.has_password,
                            e.is_external == e0.is_external,
                        decreases p@.len() - j,
                    {
                        let ghost acc = base + string_views(p@).take(j as int);
                        proof {
                            assert(base + string_views(p@).take(j + 1) =~= acc.push(p@[j as int]@));
                            lemma_first_occurrences_push(acc, p@[j as int]@);
                        }
                        if !contains_string(&e.permissions, &p[j]) {
                            let ghost before = e.permissions@;
                            e.permissions.push(p[j].clone());
                            assert(string_views(e.permissions@) =~= string_views(before).push(p@[j as int]@));
                        }
                        j += 1;
                    }
                    assert(string_views(p@).take(j as int) =~= string_views(p@));
                },
                None => {},
            }
            entry = Some(e);
        } else {
            assert(pair_rows(post, rid, sid) == pair_rows(pre, rid, sid));
        }
        i += 1;
    }
    assert(rows@.take(i as int) =~= rows@);
    entry
}

/// The order of subjects within a resource: groups, users, password
/// links, public links, anything else.
pub open spec fn subject_rank(subject_type: Seq<char>, has_password: bool) -> u8 {
    if subject_type == "group"@ {
        0
    } else if subject_type == "user"@ {
        1
    } else if subject_type == "token"@ && has_password {
        2
    } else if subject_type == "token"@ {
        3
    } else {
        4
    }
}

pub fn subject_rank_of(subject_type: &str, has_password: bool) -> (r: u8)
    ensures
        r == subject_rank(subject_type@, has_password),
{
    let v = str_chars(subject_type);
    if text_is(&v, "group") {
        0
    } else if text_is(&v, "user") {
        1
    } else if text_is(&v, "token") {
        if has_password {
            2
        } else {
            3
        }
    } else {
        4
    }
}

/// `a` is listed no later than `b`: by subject rank, then by lowercased
/// display name.
pub open spec fn grant_before(a: OutgoingGrantEntry, b: OutgoingGrantEntry) -> bool {
    let ra = subject_rank(a.subject_type@, a.has_password);
    let rb = subject_rank(b.subject_type@, b.has_password);
    ra < rb || (ra == rb && crate::ordering::lex_le(lowercase(a.subject_display@), lowercase(b.subject_display@)))
}

pub open spec fn grants_sorted(g: Seq<OutgoingGrantEntry>) -> bool {
    forall|i: int, j: int| 0 <= i < j < g.len() ==> grant_before(#[trigger] g[i], #[trigger] g[j])
}

/// The grants of resource `rid`: one per subject, sorted.
pub open spec fn resource_grants_ok(rows: Seq<OutgoingRow>, rid: u128, g: Seq<OutgoingGrantEntry>) -> bool {
    &&& grants_sorted(g)
    &&& g.len() == resource_subjects(rows, rid).len()
    &&& forall|k: int| 0 <= k < g.len() ==> entry_of(rows, rid, (#[trigger] g[k]).subject_id, g[k])
    &&& forall|sid: u128| #[trigger] resource_subjects(rows, rid).contains(sid) ==> exists|k: int|
        0 <= k < g.len() && (#[trigger] g[k]).subject_id == sid
}

struct RankedGrant {
    rank: u8,
    name: String,
    entry: OutgoingGrantEntry,
}

impl TextKeyed for RankedGrant {
    closed spec fn rank(&self) -> u8 {
        self.rank
    }

    closed spec fn key(&self) -> Seq<char> {
        self.name@
    }

    fn key_rank(&self) -> (r: u8) {
        self.rank
    }

    fn key_text(&self) -> (r: &String) {
        &self.name
    }
}

spec fn ranked_ok(x: RankedGrant) -> bool {
    x.rank == subject_rank(x.entry.subject_type@, x.entry.has_password) && x.name@ == lowercase(
        x.entry.subject_display@,
    )
}

proof fn lemma_subject_has_pair_rows(rows: Seq<OutgoingRow>, rid: u128, sid: u128)
    requires
        subject_ids(resource_rows(rows, rid)).contains(sid),
    ensures
        pair_rows(rows, rid, sid).len() > 0,
    decreases rows.len(),
{
    if rows.len() > 0 {
        let rr = resource_rows(rows.drop_last(), rid);
        let r = rows.last();
        if row_valid(r) && r.resource_id == rid {
            assert(subject_ids(rr.push(r)) =~= subject_ids(rr).push(r.subject_id));
            if r.subject_id != sid {
                crate::seq_facts::lemma_contains_drop_last(subject_ids(rr).push(r.subject_id), sid);
                assert(subject_ids(rr).push(r.subject_id).drop_last() =~= subject_ids(rr));
                lemma_subject_has_pair_rows(rows.drop_last(), rid, sid);
            }
        } else {
            lemma_subject_has_pair_rows(rows.drop_last(), rid, sid);
        }
    }
}

/// The kind, first share time and grants of resource `rid`; `None` when no
/// valid row is on it.
pub fn resource_grants(rows: &Vec<OutgoingRow>, rid: u128) -> (r: Option<(ResourceKind, i64, Vec<OutgoingGrantEntry>)>)
    ensures
        r is None <==> resource_rows(rows@, rid).len() == 0,
        r matches Some(x) ==> {
            let rr = resource_rows(rows@, rid);
            &&& resource_kind_of(rr[0].resource_type@) == Some(x.0)
            &&& x.1 == rr[0].first_shared_at
            &&& resource_grants_ok(rows@, rid, x.2@)
        },
{
    let mut head: Option<(ResourceKind, i64)> = None;
    let mut subjects: Vec<u128> = Vec::new();
    let mut i: usize = 0;
    while i < rows.len()
        invariant
            i <= rows@.len(),
            subjects@ == first_occurrences(subject_ids(resource_rows(rows@.take(i as int), rid))),
            head is None <==> resource_rows(rows@.take(i as int), rid).len() == 0,
            head matches Some(h) ==> {
                let rr = resource_rows(rows@.take(i as int), rid);
                resource_kind_of(rr[0].resource_type@) == Some(h.0) && h.1 == rr[0].first_shared_at
            },
        decreases rows@.len() - i,
    {
        let ghost pre = rows@.take(i as int);
        let ghost post = rows@.take(i + 1);
        proof {
            assert(post.drop_last() =~= pre);
            assert(post.last() == rows@[i as int]);
        }
        let r = &rows[i];
        let kind = ResourceKind::parse(r.resource_type.as_str());
        if kind.is_some() && r.role_permissions.is_some() && r.resource_id == rid {
            let ghost rr = resource_rows(pre, rid);
            assert(resource_rows(post, rid) == rr.push(*r));
            assert(subject_ids(rr.push(*r)) =~= subject_ids(rr).push(r.subject_id));
            proof {
                lemma_first_occurrences_push(subject_ids(rr), r.subject_id);
            }
            if head.is_none() {
                head = Some((kind.unwrap(), r.first_shared_at));
            }
            assert(rr.push(*r)[0] == if rr.len() == 0 { *r } else { rr[0] });
            if !u128_contains(&subjects, r.subject_id) {
                subjects.push(r.subject_id);
            }
        } else {
            assert(resource_rows(post, rid) == resource_rows(pre, rid));
        }
        i += 1;
    }
    assert(rows@.take(i as int) =~= rows@);
    let (kind, first_at) = match head {
        None => return None,
        Some(h) => h,
    };
    let ghost subs = subjects@;
    proof {
        crate::seq_facts::lemma_first_occurrences(subject_ids(resource_rows(rows@, rid)));
    }
    let mut ranked: Vec<RankedGrant> = Vec::new();
    let mut k: usize = 0;
    while k < subjects.len()
        invariant
            k <= subs.len(),
            subjects@ == subs,
            subs == resource_subjects(rows@, rid),
            forall|x: u128| #[trigger] subs.contains(x) ==> subject_ids(resource_rows(rows@, rid)).contains(x),
            ranked@.len() == k,
            forall|m: int| 0 <= m < k ==> (#[trigger] ranked@[m]).entry.subject_id == subs[m]
                && entry_of(rows@, rid, subs[m], ranked@[m].entry) && ranked_ok(ranked@[m]),
        decreases subs.len() - k,
    {
        let sid = subjects[k];
        proof {
            assert(subs.contains(subs[k as int]));
            lemma_subject_has_pair_rows(rows@, rid, sid);
        }
        let e = pair_entry(rows, rid, sid).unwrap();
        let rank = subject_rank_of(e.subject_type.as_str(), e.has_password);
        let name = to_lowercase(e.subject_display.as_str());
        ranked.push(RankedGrant { rank, name, entry: e });
        k += 1;
    }
    let ghost pre_sort = ranked@;
    let mut sorted = sort_by_key(ranked);
    let ghost srt = sorted@;
    proof {
        broadcast use vstd::seq_lib::group_to_multiset_ensures;
        assert forall|m: int| 0 <= m < srt.len() implies #[trigger] pre_sort.contains(srt[m]) by {
            assert(srt.contains(srt[m]));
            assert(srt.to_multiset().count(srt[m]) > 0);
        }
    }
    let mut grants: Vec<OutgoingGrantEntry> = Vec::new();
    let n = sorted.len();
    let mut m: usize = 0;
    while sorted.len() > 0
        invariant
            sorted@ == srt.subrange(m as int, n as int),
            n == srt.len(),
            m + sorted@.len() == n,
            grants@.len() == m,
            forall|q: int| 0 <= q < m ==> #[trigger] grants@[q] == srt[q].entry,
        decreases sorted@.len(),
    {
        let x = sorted.remove(0);
        assert(x == srt[m as int]);
        grants.push(x.entry);
        m += 1;
    }
    proof {
        broadcast use vstd::seq_lib::group_to_multiset_ensures;
        let g = grants@;
        assert forall|a: int| 0 <= a < srt.len() implies ranked_ok(#[trigger] srt[a]) && entry_of(rows@, rid, srt[a].entry.subject_id, srt[a].entry) by {
            assert(pre_sort.contains(srt[a]));
            let q = choose|q: int| 0 <= q < pre_sort.len() && pre_sort[q] == srt[a];
            assert(ranked_ok(pre_sort[q]));
        }
        assert forall|a: int| 0 <= a < g.len() implies entry_of(rows@, rid, (#[trigger] g[a]).subject_id, g[a]) by {
            assert(ranked_ok(srt[a]));
        }
        assert forall|a: int, b: int| 0 <= a < b < g.len() implies grant_before(#[trigger] g[a], #[trigger] g[b]) by {
            assert(ranked_ok(srt[a]));
            assert(ranked_ok(srt[b]));
            assert(crate::ordering::key_le(srt[a], srt[b]));
        }
        assert forall|sid: u128| #[trigger] resource_subjects(rows@, rid).contains(sid) implies exists|q: int|
            0 <= q < g.len() && (#[trigger] g[q]).subject_id == sid by {
            let j = choose|j: int| 0 <= j < subs.len() && subs[j] == sid;
            assert(pre_sort.contains(pre_sort[j]));
            assert(pre_sort.to_multiset().count(pre_sort[j]) > 0);
            assert(srt.to_multiset().count(pre_sort[j]) > 0);
            assert(srt.contains(pre_sort[j]));
            let q = choose|q: int| 0 <= q < srt.len() && srt[q] == pre_sort[j];
            assert(g[q].subject_id == sid);
        }
        assert(srt.len() == pre_sort.len()) by {
            assert(srt.to_multiset().len() == pre_sort.to_multiset().len());
        }
    }
    Some((kind, first_at, grants))
}

/// The cursor of the outgoing listing's next page, taken from the last row
/// of the page.
pub open spec fn outgoing_cursor_ok(c: GrantCursor, sort: ListingSort, reverse: bool, r: OutgoingRow) -> bool {
    match sort {
        ListingSort::Subject => cursor_at(c, "subject"@, reverse, r.first_shared_at, r.resource_id, views_of(r.sort_str), r.sort_int),
        ListingSort::Role => cursor_at(c, "role"@, reverse, r.first_shared_at, r.resource_id, views_of(r.sort_str), r.sort_int),
        ListingSort::Name => cursor_at(c, "name"@, reverse, r.first_shared_at, r.resource_id, lowered(r.sort_str), None),
        ListingSort::Type => cursor_at(c, "type"@, reverse, r.first_shared_at, r.resource_id, lowered(r.sort_str), r.sort_int),
        _ => cursor_at(c, "first_shared_at"@, reverse, r.first_shared_at, r.resource_id, None, None),
    }
}

pub fn outgoing_cursor(sort: ListingSort, reverse: bool, r: &OutgoingRow) -> (c: GrantCursor)
    ensures
        outgoing_cursor_ok(c, sort, reverse, *r),
{
    match sort {
        ListingSort::Subject => GrantCursor {
            sort_by: text_of("subject"),
            granted_at: r.first_shared_at,
            resource_id: r.resource_id,
            resource_name: copy_opt(&r.sort_str),
            sort_int: r.sort_int,
            reverse,
        },
        ListingSort::Role => GrantCursor {
            sort_by: text_of("role"),
            granted_at: r.first_shared_at,
            resource_id: r.resource_id,
            resource_name: copy_opt(&r.sort_str),
            sort_int: r.sort_int,
            reverse,
        },
        ListingSort::Name => GrantCursor {
            sort_by: text_of("name"),
            granted_at: r.first_shared_at,
            resource_id: r.resource_id,
            resource_name: lower_opt(&r.sort_str),
            sort_int: None,
            reverse,
        },
        ListingSort::Type => GrantCursor {
            sort_by: text_of("type"),
            granted_at: r.first_shared_at,
            resource_id: r.resource_id,
            resource_name: lower_opt(&r.sort_str),
            sort_int: r.sort_int,
            reverse,
        },
        _ => GrantCursor {
            sort_by: text_of("first_shared_at"),
            granted_at: r.first_shared_at,
            resource_id: r.resource_id,
            resource_name: None,
            sort_int: None,
            reverse,
        },
    }
}

/// The first `limit` of the keys (at most all of them).
pub open spec fn page_of<A>(keys: Seq<A>, limit: u32) -> Seq<A> {
    keys.take(if keys.len() > limit { limit as int } else { keys.len() as int })
}

/// Row `k` is the last row whose key is on the page.
pub open spec fn last_row_on_page<A>(keys: Seq<A>, page: Seq<A>, k: int) -> bool {
    &&& 0 <= k < keys.len()
    &&& page.contains(keys[k])
    &&& forall|j: int| k < j < keys.len() ==> !page.contains(#[trigger] keys[j])
}

/// The keys of `page` that have valid rows.
pub open spec fn resources_with_rows(rows: Seq<OutgoingRow>, page: Seq<u128>) -> Seq<u128>
    decreases page.len(),
{
    if page.len() == 0 {
        Seq::empty()
    } else {
        let p = resources_with_rows(rows, page.drop_last());
        if resource_rows(rows, page.last()).len() > 0 {
            p.push(page.last())
        } else {
            p
        }
    }
}

pub open spec fn pairs_with_rows(rows: Seq<OutgoingRow>, page: Seq<(u128, u128)>) -> Seq<(u128, u128)>
    decreases page.len(),
{
    if page.len() == 0 {
        Seq::empty()
    } else {
        let p = pairs_with_rows(rows, page.drop_last());
        if pair_rows(rows, page.last().0, page.last().1).len() > 0 {
            p.push(page.last())
        } else {
            p
        }
    }
}

/// A per-resource summary: kind and first share time of the resource's
/// first valid row, and its grants.
pub open spec fn resource_summary_ok(rows: Seq<OutgoingRow>, s: OutgoingResourceSummary) -> bool {
    let rr = resource_rows(rows, s.resource_id);
    &&& rr.len() > 0
    &&& resource_kind_of(rr[0].resource_type@) == Some(s.resource_type)
    &&& s.first_shared_at == rr[0].first_shared_at
    &&& resource_grants_ok(rows, s.resource_id, s.grants@)
}

/// A per-pair summary: the one grant of subject `sid` on the resource.
pub open spec fn pair_summary_ok(rows: Seq<OutgoingRow>, sid: u128, s: OutgoingResourceSummary) -> bool {
    let pr = pair_rows(rows, s.resource_id, sid);
    &&& pr.len() > 0
    &&& resource_kind_of(pr[0].resource_type@) == Some(s.resource_type)
    &&& s.grants@.len() == 1
    &&& entry_of(rows, s.resource_id, sid, s.grants@[0])
    &&& s.first_shared_at == s.grants@[0].granted_at
}

fn distinct_resources(rows: &Vec<OutgoingRow>) -> (d: Vec<u128>)
    ensures
        d@ == first_occurrences(resource_ids(rows@)),
{
    let mut d: Vec<u128> = Vec::new();
    let mut i: usize = 0;
    while i < rows.len()
        invariant
            i <= rows@.len(),
            d@ == first_occurrences(resource_ids(rows@.take(i as int))),
        decreases rows@.len() - i,
    {
        proof {
            assert(resource_ids(rows@.take(i + 1)) =~= resource_ids(rows@.take(i as int)).push(rows@[i as int].resource_id));
            lemma_first_occurrences_push(resource_ids(rows@.take(i as int)), rows@[i as int].resource_id);
        }
        if !u128_contains(&d, rows[i].resource_id) {
            d.push(rows[i].resource_id);
        }
        i += 1;
    }
    assert(rows@.take(i as int) =~= rows@);
    d
}

fn pair_contains(v: &Vec<(u128, u128)>, x: (u128, u128)) -> (b: bool)
    ensures
        b == v@.contains(x),
{
    let mut i: usize = 0;
    while i < v.len()
        invariant
            i <= v@.len(),
            forall|j: int| 0 <= j < i ==> v@[j] != x,
        decreases v@.len() - i,
    {
        if v[i].0 == x.0 && v[i].1 == x.1 {
            assert(v@[i as int] == x);
            return true;
        }
        i += 1;
    }
    false
}

fn distinct_pairs(rows: &Vec<OutgoingRow>) -> (d: Vec<(u128, u128)>)
    ensures
        d@ == first_occurrences(pair_keys(rows@)),
{
    let mut d: Vec<(u128, u128)> = Vec::new();
    let mut i: usize = 0;
    while i < rows.len()
        invariant
            i <= rows@.len(),
            d@ == first_occurrences(pair_keys(rows@.take(i as int))),
        decreases rows@.len() - i,
    {
        let key = (rows[i].resource_id, rows[i].subject_id);
        proof {
            assert(pair_keys(rows@.take(i + 1)) =~= pair_keys(rows@.take(i as int)).push(key));
            lemma_first_occurrences_push(pair_keys(rows@.take(i as int)), key);
        }
        if !pair_contains(&d, key) {
            d.push(key);
        }
        i += 1;
    }
    assert(rows@.take(i as int) =~= rows@);
    d
}

proof fn lemma_page_key_in_rows<A>(keys: Seq<A>, limit: u32)
    requires
        first_occurrences(keys).len() > limit,
        limit > 0,
    ensures
        exists|k: int| 0 <= k < keys.len() && page_of(first_occurrences(keys), limit).contains(#[trigger] keys[k]),
{
    crate::seq_facts::lemma_first_occurrences(keys);
    let d = first_occurrences(keys);
    let p = page_of(d, limit);
    assert(p[0] == d[0]);
    assert(d.contains(d[0]));
    assert(keys.contains(d[0]));
    let k = choose|k: int| 0 <= k < keys.len() && keys[k] == d[0];
    assert(p.contains(keys[k]));
}

/// The outgoing listing paged by resource: one summary per resource of the
/// page (resources without a valid row dropped), and the cursor of the next
/// page when there is one.
pub fn assemble_outgoing_by_resource(rows: Vec<OutgoingRow>, limit: u32, sort: ListingSort, reverse: bool) -> (r: (Vec<OutgoingResourceSummary>, Option<GrantCursor>))
    ensures
        ({
            let d = first_occurrences(resource_ids(rows@));
            let page = page_of(d, limit);
            &&& r.1 is Some <==> (d.len() > limit && limit > 0)
            &&& r.1 matches Some(c) ==> exists|k: int|
                last_row_on_page(resource_ids(rows@), page, k) && outgoing_cursor_ok(c, sort, reverse, #[trigger] rows@[k])
            &&& r.0@.map_values(|s: OutgoingResourceSummary| s.resource_id) == resources_with_rows(rows@, page)
            &&& forall|k: int| 0 <= k < r.0@.len() ==> resource_summary_ok(rows@, #[trigger] r.0@[k])
        }),
{
    let ghost keys = resource_ids(rows@);
    let mut d = distinct_resources(&rows);
    let ghost full = d@;
    let has_next = d.len() > limit as usize;
    d.truncate(limit as usize);
    proof {
        if !has_next {
            assert(full.take(full.len() as int) =~= full);
        }
    }
    let ghost page = d@;
    assert(page == page_of(full, limit));
    let mut cursor: Option<GrantCursor> = None;
    if has_next {
        let mut k = rows.len();
        while k > 0
            invariant
                k <= rows@.len(),
                keys == resource_ids(rows@),
                d@ == page,
                forall|j: int| k <= j < keys.len() ==> !page.contains(#[trigger] keys[j]),
            ensures
                k > 0 ==> page.contains(keys[k - 1]),
                forall|j: int| k <= j < keys.len() ==> !page.contains(#[trigger] keys[j]),
            decreases k,
        {
            if u128_contains(&d, rows[k - 1].resource_id) {
                break;
            }
            k -= 1;
        }
        if k > 0 {
            cursor = Some(outgoing_cursor(sort, reverse, &rows[k - 1]));
            assert(last_row_on_page(keys, page, k - 1));
        } else {
            proof {
                if limit > 0 {
                    lemma_page_key_in_rows(keys, limit);
                }
            }
        }
    }
    let mut out: Vec<OutgoingResourceSummary> = Vec::new();
    let mut i: usize = 0;
    while i < d.len()
        invariant
            i <= page.len(),
            d@ == page,
            out@.map_values(|s: OutgoingResourceSummary| s.resource_id) == resources_with_rows(rows@, page.take(i as int)),
            forall|k: int| 0 <= k < out@.len() ==> resource_summary_ok(rows@, #[trigger] out@[k]),
        decreases page.len() - i,
    {
        let rid = d[i];
        proof {
            assert(page.take(i + 1).drop_last() =~= page.take(i as int));
            assert(page.take(i + 1).last() == rid);
        }
        let ghost before = out@;
        match resource_grants(&rows, rid) {
            Some((kind, first_at, grants)) => {
                out.push(OutgoingResourceSummary { resource_type: kind, resource_id: rid, first_shared_at: first_at, grants });
                assert(out@.map_values(|s: OutgoingResourceSummary| s.resource_id) =~= before.map_values(|s: OutgoingResourceSummary| s.resource_id).push(rid));
            },
            None => {},
        }
        i += 1;
    }
    assert(page.take(i as int) =~= page);
    (out, cursor)
}

/// The outgoing listing paged by (resource, subject) pair: one summary per
/// pair of the page holding that subject's single grant (pairs without a
/// valid row dropped), and the cursor of the next page when there is one.
pub fn assemble_outgoing_by_pair(rows: Vec<OutgoingRow>, limit: u32, sort: ListingSort, reverse: bool) -> (r: (Vec<OutgoingResourceSummary>, Option<GrantCursor>))
    ensures
        ({
            let d = first_occurrences(pair_keys(rows@));
            let page = page_of(d, limit);
            let kept = pairs_with_rows(rows@, page);
            &&& r.1 is Some <==> (d.len() > limit && limit > 0)
            &&& r.1 matches Some(c) ==> exists|k: int|
                last_row_on_page(pair_keys(rows@), page, k) && outgoing_cursor_ok(c, sort, reverse, #[trigger] rows@[k])
            &&& r.0@.len() == kept.len()
            &&& forall|k: int| 0 <= k < r.0@.len() ==> (#[trigger] r.0@[k]).resource_id == kept[k].0
                && pair_summary_ok(rows@, kept[k].1, r.0@[k])
        }),
{
    let ghost keys = pair_keys(rows@);
    let mut d = distinct_pairs(&rows);
    let ghost full = d@;
    let has_next = d.len() > limit as usize;
    d.truncate(limit as usize);
    proof {
        if !has_next {
            assert(full.take(full.len() as int) =~= full);
        }
    }
    let ghost page = d@;
    assert(page == page_of(full, limit));
    let mut cursor: Option<GrantCursor> = None;
    if has_next {
        let mut k = rows.len();
        while k > 0
            invariant
                k <= rows@.len(),
                keys == pair_keys(rows@),
                d@ == page,
                forall|j: int| k <= j < keys.len() ==> !page.contains(#[trigger] keys[j]),
            ensures
                k > 0 ==> page.contains(keys[k - 1]),
                forall|j: int| k <= j < keys.len() ==> !page.contains(#[trigger] keys[j]),
            decreases k,
        {
            let key = (rows[k - 1].resource_id, rows[k - 1].subject_id);
            assert(keys[k - 1] == key);
            if pair_contains(&d, key) {
                break;
            }
            k -= 1;
        }
        if k > 0 {
            cursor = Some(outgoing_cursor(sort, reverse, &rows[k - 1]));
            assert(last_row_on_page(keys, page, k - 1));
        } else {
            proof {
                if limit > 0 {
                    lemma_page_key_in_rows(keys, limit);
                }
            }
        }
    }
    let mut out: Vec<OutgoingResourceSummary> = Vec::new();
    let mut i: usize = 0;
    while i < d.len()
        invariant
            i <= page.len(),
            d@ == page,
            out@.len() == pairs_with_rows(rows@, page.take(i as int)).len(),
            forall|k: int| 0 <= k < out@.len() ==> (#[trigger] out@[k]).resource_id == pairs_with_rows(rows@, page.take(i as int))[k].0
                && pair_summary_ok(rows@, pairs_with_rows(rows@, page.take(i as int))[k].1, out@[k]),
        decreases page.len() - i,
    {
        let (rid, sid) = d[i];
        let ghost prev = pairs_with_rows(rows@, page.take(i as int));
        proof {
            assert(page.take(i + 1).drop_last() =~= page.take(i as int));
            assert(page.take(i + 1).last() == (rid, sid));
        }
        match pair_entry(&rows, rid, sid) {
            Some(e) => {
                let mut kind = ResourceKind::Folder;
                let mut j: usize = 0;
                let mut found = false;
                while j < rows.len() && !found
                    invariant
                        j <= rows@.len(),
                        pair_rows(rows@, rid, sid).len() > 0,
                        found ==> pair_rows(rows@.take(j as int), rid, sid).len() > 0 && resource_kind_of(
                            pair_rows(rows@.take(j as int), rid, sid)[0].resource_type@,
                        ) == Some(kind),
                        !found ==> pair_rows(rows@.take(j as int), rid, sid).len() == 0,
                    decreases rows@.len() - j,
                {
                    proof {
                        assert(rows@.take(j + 1).drop_last() =~= rows@.take(j as int));
                    }
                    let r = &rows[j];
                    if r.resource_id == rid && r.subject_id == sid && r.role_permissions.is_some() {
                        match ResourceKind::parse(r.resource_type.as_str()) {
                            Some(k) => {
                                kind = k;
                                found = true;
                            },
                            None => {},
                        }
                    }
                    j += 1;
                }
                proof {
                    if !found {
                        assert(rows@.take(j as int) =~= rows@);
                    }
                    lemma_pair_rows_prefix(rows@, rid, sid, j as int);
                }
                let first_at = e.granted_at;
                let mut grants: Vec<OutgoingGrantEntry> = Vec::new();
                grants.push(e);
                out.push(OutgoingResourceSummary { resource_type: kind, resource_id: rid, first_shared_at: first_at, grants });
                proof {
                    assert(pairs_with_rows(rows@, page.take(i + 1)) == prev.push((rid, sid)));
                }
            },
            None => {
                assert(pairs_with_rows(rows@, page.take(i + 1)) == prev);
            },
        }
        i += 1;
    }
    assert(page.take(i as int) =~= page);
    (out, cursor)
}

/// The valid pair rows of a prefix are a prefix of those of the whole.
proof fn lemma_pair_rows_prefix(rows: Seq<OutgoingRow>, rid: u128, sid: u128, j: int)
    requires
        0 <= j <= rows.len(),
        pair_rows(rows.take(j), rid, sid).len() > 0,
    ensures
        pair_rows(rows, rid, sid).len() > 0,
        pair_rows(rows, rid, sid)[0] == pair_rows(rows.take(j), rid, sid)[0],
    decreases rows.len() - j,
{
    if j < rows.len() {
        assert(rows.take(j + 1).drop_last() =~= rows.take(j));
        lemma_pair_rows_prefix(rows, rid, sid, j + 1);
    } else {
        assert(rows.take(j) =~= rows);
    }
}

/// The outgoing listing: paged by (resource, subject) pair when sorted by
/// subject or role, else by resource.
pub fn assemble_outgoing(rows: Vec<OutgoingRow>, limit: u32, sort: ListingSort, reverse: bool) -> (r: (Vec<OutgoingResourceSummary>, Option<GrantCursor>))
    ensures
        (sort is Subject || sort is Role) ==> ({
            let d = first_occurrences(pair_keys(rows@));
            let kept = pairs_with_rows(rows@, page_of(d, limit));
            &&& r.1 is Some <==> (d.len() > limit && limit > 0)
            &&& r.1 matches Some(c) ==> exists|k: int|
                last_row_on_page(pair_keys(rows@), page_of(d, limit), k) && outgoing_cursor_ok(c, sort, reverse, #[trigger] rows@[k])
            &&& r.0@.len() == kept.len()
            &&& forall|k: int| 0 <= k < r.0@.len() ==> (#[trigger] r.0@[k]).resource_id == kept[k].0
                && pair_summary_ok(rows@, kept[k].1, r.0@[k])
        }),
        !(sort is Subject || sort is Role) ==> ({
            let d = first_occurrences(resource_ids(rows@));
            &&& r.1 is Some <==> (d.len() > limit && limit > 0)
            &&& r.1 matches Some(c) ==> exists|k: int|
                last_row_on_page(resource_ids(rows@), page_of(d, limit), k) && outgoing_cursor_ok(c, sort, reverse, #[trigger] rows@[k])
            &&& r.0@.map_values(|s: OutgoingResourceSummary| s.resource_id) == resources_with_rows(rows@, page_of(d, limit))
            &&& forall|k: int| 0 <= k < r.0@.len() ==> resource_summary_ok(rows@, #[trigger] r.0@[k])
        }),
{
    match sort {
        ListingSort::Subject | ListingSort::Role => assemble_outgoing_by_pair(rows, limit, sort, reverse),
        _ => assemble_outgoing_by_resource(rows, limit, sort, reverse),
    }
}

// ── Laws ────────────────────────────────────────────────────────────────

proof fn lemma_known_incoming_len(page: Seq<IncomingRow>)
    ensures
        known_incoming(page).len() <= page.len(),
    decreases page.len(),
{
    if page.len() > 0 {
        lemma_known_incoming_len(page.drop_last());
    }
}

proof fn lemma_resources_with_rows_sub(rows: Seq<OutgoingRow>, page: Seq<u128>)
    ensures
        resources_with_rows(rows, page).len() <= page.len(),
        forall|x: u128| #[trigger] resources_with_rows(rows, page).contains(x) ==> page.contains(x),
        page.no_duplicates() ==> resources_with_rows(rows, page).no_duplicates(),
    decreases page.len(),
{
    if page.len() > 0 {
        let q = page.drop_last();
        lemma_resources_with_rows_sub(rows, q);
        let f = resources_with_rows(rows, q);
        assert forall|x: u128| #[trigger] resources_with_rows(rows, page).contains(x) implies page.contains(x) by {
            crate::seq_facts::lemma_contains_drop_last(page, x);
            if resources_with_rows(rows, page) != f {
                crate::seq_facts::lemma_contains_drop_last(f.push(page.last()), x);
                assert(f.push(page.last()).drop_last() =~= f);
            }
        }
        if page.no_duplicates() && resources_with_rows(rows, page) != f {
            assert(q.no_duplicates()) by {
                assert forall|a: int, b: int| 0 <= a < b < q.len() implies q[a] != q[b] by {
                    assert(q[a] == page[a] && q[b] == page[b]);
                }
            }
            assert(!q.contains(page.last())) by {
                if q.contains(page.last()) {
                    let j = choose|j: int| 0 <= j < q.len() && q[j] == page.last();
                    assert(page[j] == page[page.len() - 1]);
                }
            }
            let g = f.push(page.last());
            assert forall|a: int, b: int| 0 <= a < b < g.len() implies g[a] != g[b] by {
                if b == g.len() - 1 {
                    assert(f.contains(g[a]));
                }
            }
        }
    }
}

proof fn lemma_pairs_with_rows_len(rows: Seq<OutgoingRow>, page: Seq<(u128, u128)>)
    ensures
        pairs_with_rows(rows, page).len() <= page.len(),
    decreases page.len(),
{
    if page.len() > 0 {
        lemma_pairs_with_rows_len(rows, page.drop_last());
    }
}

/// A page of the incoming listing never holds more than `limit` resources.
pub proof fn law_incoming_page_within_limit(rows: Seq<IncomingRow>, limit: u32)
    ensures
        known_incoming(page_of(rows, limit)).len() <= limit,
{
    lemma_known_incoming_len(page_of(rows, limit));
}

/// A page of the outgoing listing paged by resource holds at most `limit`
/// resources, none twice.
pub proof fn law_outgoing_page_within_limit(rows: Seq<OutgoingRow>, limit: u32)
    ensures
        ({
            let page = resources_with_rows(rows, page_of(first_occurrences(resource_ids(rows)), limit));
            page.len() <= limit && page.no_duplicates()
        }),
{
    let d = first_occurrences(resource_ids(rows));
    crate::seq_facts::lemma_first_occurrences(resource_ids(rows));
    let p = page_of(d, limit);
    assert(p.no_duplicates()) by {
        assert forall|a: int, b: int| 0 <= a < b < p.len() implies p[a] != p[b] by {
            assert(p[a] == d[a] && p[b] == d[b]);
        }
    }
    lemma_resources_with_rows_sub(rows, p);
}

/// A page of the outgoing listing paged by subject holds at most `limit`
/// entries.
pub proof fn law_outgoing_pair_page_within_limit(rows: Seq<OutgoingRow>, limit: u32)
    ensures
        pairs_with_rows(rows, page_of(first_occurrences(pair_keys(rows)), limit)).len() <= limit,
{
    lemma_pairs_with_rows_len(rows, page_of(first_occurrences(pair_keys(rows)), limit));
}

/// Grants of a resource are one per subject: no subject is listed twice.
pub proof fn law_one_grant_per_subject(rows: Seq<OutgoingRow>, rid: u128, g: Seq<OutgoingGrantEntry>)
    requires
        resource_grants_ok(rows, rid, g),
    ensures
        forall|a: int, b: int| 0 <= a < b < g.len() ==> (#[trigger] g[a]).subject_id != (#[trigger] g[b]).subject_id,
{
    let subs = resource_subjects(rows, rid);
    crate::seq_facts::lemma_first_occurrences(subject_ids(resource_rows(rows, rid)));
    // every subject of `subs` is carried by some grant; with as many grants as
    // subjects, two grants of one subject would leave a subject uncovered.
    assert forall|a: int, b: int| 0 <= a < b < g.len() implies (#[trigger] g[a]).subject_id != (#[trigger] g[b]).subject_id by {
        lemma_pigeonhole(subs, g, a, b);
    }
}

/// Grants that cover every subject of a duplicate-free list, with no more
/// grants than subjects, cannot repeat a subject.
proof fn lemma_pigeonhole(subs: Seq<u128>, g: Seq<OutgoingGrantEntry>, a: int, b: int)
    requires
        subs.no_duplicates(),
        g.len() == subs.len(),
        forall|sid: u128| #[trigger] subs.contains(sid) ==> exists|k: int| 0 <= k < g.len() && (#[trigger] g[k]).subject_id == sid,
        0 <= a < b < g.len(),
    ensures
        g[a].subject_id != g[b].subject_id,
{
    if g[a].subject_id == g[b].subject_id {
        // map each subject to the index of a grant carrying it: injective into
        // the grant indices without `b`, a set of size len - 1.
        let f = |i: int| choose|k: int| 0 <= k < g.len() && k != b && (#[trigger] g[k]).subject_id == subs[i];
        assert forall|i: int| 0 <= i < subs.len() implies {
            let k = #[trigger] f(i);
            0 <= k < g.len() && k != b && g[k].subject_id == subs[i]
        } by {
            assert(subs.contains(subs[i]));
            let k = choose|k: int| 0 <= k < g.len() && (#[trigger] g[k]).subject_id == subs[i];
            if k == b {
                assert(0 <= a < g.len() && a != b && g[a].subject_id == subs[i]);
            }
        }
        let dom = Set::new(|i: int| 0 <= i < subs.len());
        let rng = Set::new(|k: int| 0 <= k < g.len() && k != b);
        assert forall|i: int, j: int| dom.contains(i) && dom.contains(j) && #[trigger] f(i) == #[trigger] f(j) implies i == j by {
            assert(subs[i] == g[f(i)].subject_id);
            assert(subs[j] == g[f(j)].subject_id);
        }
        vstd::set_lib::lemma_int_range(0, subs.len() as int);
        assert(dom =~= vstd::set_lib::set_int_range(0, subs.len() as int));
        let r0 = vstd::set_lib::set_int_range(0, g.len() as int);
        vstd::set_lib::lemma_int_range(0, g.len() as int);
        assert(rng =~= r0.remove(b));
        assert(rng.len() == g.len() - 1);
        let img = dom.map(f);
        assert(img.subset_of(rng)) by {
            assert forall|k: int| img.contains(k) implies rng.contains(k) by {
                let i = choose|i: int| dom.contains(i) && f(i) == k;
            }
        }
        vstd::set_lib::lemma_map_size(dom, img, f);
        vstd::set_lib::lemma_len_subset(img, rng);
        assert(false);
    }
}

/// The next-page cursor keeps the keyset position of the page's last row:
/// its time and resource id always, the row's type order in a type-sorted
/// listing, and the row's lowercased sort text in a name- or type-sorted
/// one (the subject or role text, as it is, with its order, when a
/// subject- or role-sorted outgoing listing pages by resource).
pub proof fn law_cursor_keeps_sort_key(
    c: GrantCursor,
    d: GrantCursor,
    sort: ListingSort,
    reverse: bool,
    r: IncomingRow,
    o: OutgoingRow,
)
    requires
        incoming_cursor_ok(c, sort, reverse, r),
        outgoing_cursor_ok(d, sort, reverse, o),
    ensures
        c.reverse == reverse && c.granted_at == r.granted_at && c.resource_id == r.resource_id,
        d.reverse == reverse && d.granted_at == o.first_shared_at && d.resource_id == o.resource_id,
        sort is Type ==> c.sort_int == r.sort_int && views_of(c.resource_name) == lowered(r.sort_str),
        sort is Name ==> views_of(c.resource_name) == lowered(r.sort_str),
        sort is GrantedBy ==> views_of(c.resource_name) == views_of(r.sort_str),
        sort is Type ==> d.sort_int == o.sort_int && views_of(d.resource_name) == lowered(o.sort_str),
        sort is Name ==> views_of(d.resource_name) == lowered(o.sort_str),
        (sort is Subject || sort is Role) ==> d.sort_int == o.sort_int && views_of(d.resource_name)
            == views_of(o.sort_str),
{
}

} // verus!
