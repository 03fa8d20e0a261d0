//! WebDAV path resolution within a drive: the lookup key a path is resolved
//! by (the folder path, the file name and its parent folder's path), and
//! what a matched row becomes.

use vstd::prelude::*;
use crate::fs_path::{split_chars, split_on};
use crate::seq_facts::string_views;
use crate::text::{push_char, push_text, str_chars, string_from_chars};

verus! {

/// `s` without its leading `/` characters.
pub open spec fn trim_leading_slashes(s: Seq<char>) -> Seq<char>
    decreases s.len(),
{
    if s.len() > 0 && s[0] == '/' {
        trim_leading_slashes(s.drop_first())
    } else {
        s
    }
}

/// `s` without its trailing `/` characters.
pub open spec fn trim_trailing_slashes(s: Seq<char>) -> Seq<char>
    decreases s.len(),
{
    if s.len() > 0 && s.last() == '/' {
        trim_trailing_slashes(s.drop_last())
    } else {
        s
    }
}

/// The path with its surrounding slashes removed.
pub open spec fn bare_path(s: Seq<char>) -> Seq<char> {
    trim_trailing_slashes(trim_leading_slashes(s))
}

/// The non-empty pieces, in order.
pub open spec fn nonempty_pieces(ps: Seq<Seq<char>>) -> Seq<Seq<char>>
    decreases ps.len(),
{
    if ps.len() == 0 {
        Seq::empty()
    } else if ps.last().len() == 0 {
        nonempty_pieces(ps.drop_last())
    } else {
        nonempty_pieces(ps.drop_last()).push(ps.last())
    }
}

/// Segments joined by `/` (no leading or trailing separator).
pub open spec fn slash_joined(segs: Seq<Seq<char>>) -> Seq<char>
    decreases segs.len(),
{
    if segs.len() == 0 {
        Seq::empty()
    } else if segs.len() == 1 {
        segs[0]
    } else {
        slash_joined(segs.drop_last()).push('/') + segs.last()
    }
}

/// The segments of a path.
pub open spec fn path_segments(s: Seq<char>) -> Seq<Seq<char>> {
    nonempty_pieces(split_on(bare_path(s), '/'))
}

/// What a path is looked up by: the bare path (matched against folder
/// paths), the last segment (matched against file names) and the rest
/// (matched against the parent folder's path; empty for the drive root).
#[derive(Debug, Clone)]
pub struct LookupKey {
    pub path: String,
    pub filename: String,
    pub folder_path: String,
}

pub open spec fn lookup_key_of(s: Seq<char>, k: LookupKey) -> bool {
    let segs = path_segments(s);
    &&& segs.len() > 0
    &&& k.path@ == bare_path(s)
    &&& k.filename@ == segs.last()
    &&& k.folder_path@ == slash_joined(segs.drop_last())
}

proof fn lemma_split_last_nonempty(s: Seq<char>, sep: char)
    requires
        s.len() > 0,
        s.last() != sep,
    ensures
        split_on(s, sep).len() > 0,
        split_on(s, sep).last().len() > 0,
{
    crate::fs_path::lemma_split_on_nonempty(s.drop_last(), sep);
}

fn trim_slashes(v: &Vec<char>) -> (r: (usize, usize))
    ensures
        r.0 <= r.1 <= v@.len(),
        v@.subrange(r.0 as int, r.1 as int) == bare_path(v@),
{
    let mut a: usize = 0;
    assert(v@.subrange(0, v@.len() as int) =~= v@);
    while a < v.len() && v[a] == '/'
        invariant
            a <= v@.len(),
            trim_leading_slashes(v@.subrange(a as int, v@.len() as int)) == trim_leading_slashes(v@),
        decreases v@.len() - a,
    {
        assert(v@.subrange(a as int, v@.len() as int).drop_first() =~= v@.subrange(a + 1, v@.len() as int));
        a += 1;
    }
    proof {
        let rest = v@.subrange(a as int, v@.len() as int);
        if rest.len() > 0 {
            assert(rest[0] == v@[a as int]);
        }
        assert(trim_leading_slashes(rest) == rest);
    }
    let mut b: usize = v.len();
    while b > a && v[b - 1] == '/'
        invariant
            a <= b <= v@.len(),
            trim_leading_slashes(v@) == v@.subrange(a as int, v@.len() as int),
            trim_trailing_slashes(v@.subrange(a as int, b as int)) == bare_path(v@),
        decreases b,
    {
        assert(v@.subrange(a as int, b as int).drop_last() =~= v@.subrange(a as int, b - 1));
        b -= 1;
    }
    (a, b)
}

/// The lookup key of a WebDAV path; `None` when nothing but slashes is left.
pub fn lookup_key(path: &str) -> (r: Option<LookupKey>)
    ensures
        r is None <==> bare_path(path@).len() == 0,
        r matches Some(k) ==> lookup_key_of(path@, k),
{
    let v = str_chars(path);
    let (a, b) = trim_slashes(&v);
    if a == b {
        return None;
    }
    let bare = string_from_chars(&v, a, b);
    let bv = str_chars(bare.as_str());
    let pieces = split_chars(&bv, '/');
    let ghost ps = split_on(bare@, '/');
    let mut segs: Vec<String> = Vec::new();
    let mut i: usize = 0;
    while i < pieces.len()
        invariant
            i <= pieces@.len(),
            string_views(pieces@) == ps,
            string_views(segs@) == nonempty_pieces(ps.take(i as int)),
        decreases pieces@.len() - i,
    {
        proof {
            assert(ps.take(i + 1).drop_last() =~= ps.take(i as int));
            assert(ps.take(i + 1).last() == pieces@[i as int]@);
        }
        if !pieces[i].as_str().is_empty() {
            let ghost before = string_views(segs@);
            segs.push(pieces[i].clone());
            assert(string_views(segs@) =~= before.push(pieces@[i as int]@));
        }
        i += 1;
    }
    assert(ps.take(i as int) =~= ps);
    proof {
        let t = trim_leading_slashes(v@);
        assert(bare@.len() > 0);
        lemma_trailing_trimmed(t);
        lemma_split_last_nonempty(bare@, '/');
        assert(ps.drop_last().push(ps.last()) =~= ps);
    }
    let n = segs.len();
    let filename = segs[n - 1].clone();
    let mut folder = String::new();
    let mut j: usize = 0;
    let ghost sv = string_views(segs@);
    while j + 1 < n
        invariant
            n == sv.len(),
            n > 0,
            j + 1 <= n,
            string_views(segs@) == sv,
            folder@ == slash_joined(sv.take(j as int)),
        decreases n - j,
    {
        assert(sv.take(j + 1).drop_last() =~= sv.take(j as int));
        if j > 0 {
            push_char(&mut folder, '/');
        }
        push_text(&mut folder, segs[j].as_str());
        proof {
            if j == 0 {
                assert(folder@ =~= sv.take(1)[0]);
            }
        }
        j += 1;
    }
    assert(sv.take(j as int) =~= sv.drop_last());
    Some(LookupKey { path: bare, filename, folder_path: folder })
}

proof fn lemma_trailing_trimmed(t: Seq<char>)
    ensures
        trim_trailing_slashes(t).len() > 0 ==> trim_trailing_slashes(t).last() != '/',
    decreases t.len(),
{
    if t.len() > 0 && t.last() == '/' {
        lemma_trailing_trimmed(t.drop_last());
    }
}

/// The row a lookup matched: a folder, or a file with its parent's path.
#[derive(Debug, Clone)]
pub struct ResolvedRow {
    pub resource_type: String,
    pub id: String,
    pub name: String,
    pub path: String,
    pub parent_id: Option<String>,
    pub drive_id: u128,
    pub created_at: i64,
    pub modified_at: i64,
    pub size: Option<i64>,
    pub mime_type: Option<String>,
    pub folder_id: Option<String>,
    pub blob_hash: Option<String>,
    pub tree_modified_at: Option<i64>,
}

/// A folder found by path.
#[derive(Debug, Clone)]
pub struct ResolvedFolder {
    pub id: String,
    pub name: String,
    pub path: String,
    pub parent_id: Option<String>,
    pub drive_id: u128,
    pub created_at: u64,
    pub modified_at: u64,
    /// The subtree's last change (the folder's own when unknown); its ETag
    /// is derived from it.
    pub tree_modified_at: u64,
    pub is_root: bool,
}

/// A file found by path.
#[derive(Debug, Clone)]
pub struct ResolvedFile {
    pub id: String,
    pub name: String,
    pub path: String,
    pub size: u64,
    pub mime_type: String,
    pub folder_id: Option<String>,
    pub created_at: u64,
    pub modified_at: u64,
    /// The content hash; its ETag is derived from it.
    pub content_hash: String,
}

/// Result of resolving a WebDAV path: a folder or a file.
#[derive(Debug, Clone)]
pub enum ResolvedResource {
    Folder(ResolvedFolder),
    File(ResolvedFile),
}

/// Why a path did not resolve.
#[derive(Debug, Clone)]
pub enum ResolveError {
    /// The path is empty once its slashes are removed.
    EmptyPath,
    /// No folder or file of the drive has this (bare) path.
    NotFound(String),
}

pub open spec fn opt_views(s: Option<String>) -> Option<Seq<char>> {
    match s {
        Some(t) => Some(t@),
        None => None,
    }
}

/// What a matched row becomes: a folder for a `folder` row, a file
/// otherwise (unknown MIME type as `application/octet-stream`, unknown size
/// as 0, unknown hash as empty).
pub open spec fn resolved_ok(row: ResolvedRow, r: ResolvedResource) -> bool {
    if row.resource_type@ == "folder"@ {
        r matches ResolvedResource::Folder(f) && {
            &&& f.id@ == row.id@
            &&& f.name@ == row.name@
            &&& f.path@ == row.path@
            &&& opt_views(f.parent_id) == opt_views(row.parent_id)
            &&& f.drive_id == row.drive_id
            &&& f.created_at == row.created_at as u64
            &&& f.modified_at == row.modified_at as u64
            &&& f.tree_modified_at == (match row.tree_modified_at {
                Some(t) => t,
                None => row.modified_at,
            }) as u64
            &&& !f.is_root
        }
    } else {
        r matches ResolvedResource::File(f) && {
            &&& f.id@ == row.id@
            &&& f.name@ == row.name@
            &&& f.path@ == row.path@
            &&& f.size == (match row.size {
                Some(s) => s,
                None => 0,
            }) as u64
            &&& f.mime_type@ == (match row.mime_type {
                Some(m) => m@,
                None => "application/octet-stream"@,
            })
            &&& opt_views(f.folder_id) == opt_views(row.folder_id)
            &&& f.created_at == row.created_at as u64
            &&& f.modified_at == row.modified_at as u64
            &&& f.content_hash@ == (match row.blob_hash {
                Some(h) => h@,
                None => Seq::<char>::empty(),
            })
        }
    }
}

fn copy_opt_text(s: &Option<String>) -> (r: Option<String>)
    ensures
        opt_views(r) == opt_views(*s),
{
    match s {
        Some(t) => Some(t.clone()),
        None => None,
    }
}

pub fn resolve_row(row: &ResolvedRow) -> (r: ResolvedResource)
    ensures
        resolved_ok(*row, r),
{
    let t = str_chars(row.resource_type.as_str());
    let folder_text = str_chars("folder");
    if crate::text::chars_equal(&t, &folder_text) {
        let tree = match row.tree_modified_at {
            Some(x) => x,
            None => row.modified_at,
        };
        ResolvedResource::Folder(ResolvedFolder {
            id: row.id.clone(),
            name: row.name.clone(),
            path: row.path.clone(),
            parent_id: copy_opt_text(&row.parent_id),
            drive_id: row.drive_id,
            created_at: row.created_at as u64,
            modified_at: row.modified_at as u64,
            tree_modified_at: tree as u64,
            is_root: false,
        })
    } else {
        let mime = match &row.mime_type {
            Some(m) => m.clone(),
            None => {
                let mut m = String::new();
                push_text(&mut m, "application/octet-stream");
                assert(m@ =~= "application/octet-stream"@);
                m
            },
        };
        let size = match row.size {
            Some(s) => s,
            None => 0,
        };
        let hash = match &row.blob_hash {
            Some(h) => h.clone(),
            None => String::new(),
        };
        ResolvedResource::File(ResolvedFile {
            id: row.id.clone(),
            name: row.name.clone(),
            path: row.path.clone(),
            size: size as u64,
            mime_type: mime,
            folder_id: copy_opt_text(&row.folder_id),
            created_at: row.created_at as u64,
            modified_at: row.modified_at as u64,
            content_hash: hash,
        })
    }
}

/// The outcome of a lookup of `key` that matched `row` (or nothing).
pub fn resolve_outcome(key: &LookupKey, row: Option<ResolvedRow>) -> (r: Result<ResolvedResource, ResolveError>)
    ensures
        row is None ==> (r matches Err(ResolveError::NotFound(p)) && p@ == key.path@),
        row matches Some(x) ==> (r matches Ok(res) && resolved_ok(x, res)),
{
    match row {
        None => Err(ResolveError::NotFound(key.path.clone())),
        Some(x) => Ok(resolve_row(&x)),
    }
}

/// A resolved folder carries the last change of its subtree: the row's
/// tree time when the row has one (a change below the folder shows in its
/// ETag), and the folder's own modification time only when it has none.
pub proof fn law_folder_tree_time(row: ResolvedRow, r: ResolvedResource)
    requires
        resolved_ok(row, r),
        row.resource_type@ == "folder"@,
    ensures
        r matches ResolvedResource::Folder(f) && f.tree_modified_at == match row.tree_modified_at {
            Some(t) => t as u64,
            None => row.modified_at as u64,
        },
        row.tree_modified_at matches Some(t) ==> (r matches ResolvedResource::Folder(f) && f.tree_modified_at == t as u64),
{
}

} // verus!
