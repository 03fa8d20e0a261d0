//! Path safety and chunk ordering for resumable (Nextcloud-style) chunked
//! uploads: each session lives in `base_dir/{user}/{upload_id}`, each chunk
//! in a file of that directory, and the chunks assemble in name order.

use vstd::prelude::*;
use crate::fs_path::{path_push, push};
use crate::decimal::{all_digits, digits_value, is_digit, parse_u64};
use crate::ordering::{lemma_insert_multiset, lemma_lex_total, lemma_lex_trans, lex_le, sort_by_key, sorted_by_key, text_le};
use crate::seq_facts::string_views;
use crate::text::{chars_contain, str_chars};

verus! {

/// Why a chunked-upload request was refused.
#[derive(Debug, Clone)]
pub enum UploadError {
    /// A path component (user, upload id or chunk name; named by the label)
    /// holds path-traversal characters.
    InvalidComponent(String),
}

/// The text of a refusal.
pub open spec fn upload_error_message(e: UploadError) -> Seq<char> {
    match e {
        UploadError::InvalidComponent(l) => "ChunkedUpload: invalid "@ + l@ + ": contains path traversal characters"@,
    }
}

impl UploadError {
    /// A human-readable description.
    pub fn message(&self) -> (m: String)
        ensures
            m@ == upload_error_message(*self),
    {
        let mut m = String::new();
        match self {
            UploadError::InvalidComponent(l) => {
                crate::text::push_text(&mut m, "ChunkedUpload: invalid ");
                crate::text::push_text(&mut m, l.as_str());
                crate::text::push_text(&mut m, ": contains path traversal characters");
            },
        }
        m
    }
}

/// `s` holds `..` at position `i`.
pub open spec fn dot_pair_at(s: Seq<char>, i: int) -> bool {
    s[i] == '.' && s[i + 1] == '.'
}

/// A component that could leave its directory: empty, `.`, containing `/`,
/// `\` or `..`.
pub open spec fn is_unsafe_component(s: Seq<char>) -> bool {
    ||| s.len() == 0
    ||| s.contains('/')
    ||| s.contains('\\')
    ||| exists|i: int| 0 <= i < s.len() - 1 && #[trigger] dot_pair_at(s, i)
    ||| s == seq!['.']
}

/// `.file` is the protocol's assembly marker, `.assembled` a staging file of
/// older releases: neither is a chunk.
pub open spec fn is_marker(s: Seq<char>) -> bool {
    s == seq!['.', 'f', 'i', 'l', 'e'] || s == seq!['.', 'a', 's', 's', 'e', 'm', 'b', 'l', 'e', 'd']
}

fn has_dot_dot(v: &Vec<char>) -> (b: bool)
    ensures
        b == exists|i: int| 0 <= i < v@.len() - 1 && #[trigger] dot_pair_at(v@, i),
{
    if v.len() < 2 {
        return false;
    }
    let mut i: usize = 0;
    while i < v.len() - 1
        invariant
            v@.len() >= 2,
            i + 1 <= v@.len(),
            forall|j: int| 0 <= j < i ==> !#[trigger] dot_pair_at(v@, j),
        decreases v@.len() - i,
    {
        if v[i] == '.' && v[i + 1] == '.' {
            assert(dot_pair_at(v@, i as int));
            return true;
        }
        i += 1;
    }
    false
}

fn is_marker_name(s: &String) -> (b: bool)
    ensures
        b == is_marker(s@),
{
    let v = str_chars(s.as_str());
    let file: Vec<char> = vec!['.', 'f', 'i', 'l', 'e'];
    let assembled: Vec<char> = vec!['.', 'a', 's', 's', 'e', 'm', 'b', 'l', 'e', 'd'];
    assert(file@ =~= seq!['.', 'f', 'i', 'l', 'e']);
    assert(assembled@ =~= seq!['.', 'a', 's', 's', 'e', 'm', 'b', 'l', 'e', 'd']);
    crate::text::chars_equal(&v, &file) || crate::text::chars_equal(&v, &assembled)
}

/// Chunk-upload session layout.
#[derive(Debug, Clone)]
pub struct NextcloudChunkedUploadService {
    pub base_dir: String,
}

/// The session directory of `user`'s upload `upload_id` under `base`.
pub open spec fn session_dir(base: Seq<char>, user: Seq<char>, upload_id: Seq<char>) -> Seq<char> {
    path_push(path_push(base, user), upload_id)
}

impl NextcloudChunkedUploadService {
    /// Refuse a path component that could escape its directory.
    pub fn validate_path_component(name: &str, label: &str) -> (r: Result<(), UploadError>)
        ensures
            r is Ok <==> !is_unsafe_component(name@),
            r matches Err(UploadError::InvalidComponent(l)) ==> l@ == label@,
    {
        let v = str_chars(name);
        let bad = v.len() == 0 || chars_contain(&v, '/') || chars_contain(&v, '\\') || has_dot_dot(&v)
            || (v.len() == 1 && v[0] == '.');
        proof {
            if v@.len() == 1 && v@[0] == '.' {
                assert(v@ =~= seq!['.']);
            }
        }
        if bad {
            let lv = str_chars(label);
            let l = crate::text::string_from_chars(&lv, 0, lv.len());
            assert(lv@.subrange(0, lv@.len() as int) =~= lv@);
            return Err(UploadError::InvalidComponent(l));
        }
        Ok(())
    }

    pub fn new(base_dir: String) -> (s: Self)
        ensures
            s.base_dir@ == base_dir@,
    {
        NextcloudChunkedUploadService { base_dir }
    }

    /// The service rooted at the default upload directory.
    pub fn new_stub() -> (s: Self)
        ensures
            s.base_dir@ == "./storage/.uploads/nextcloud"@,
    {
        NextcloudChunkedUploadService { base_dir: "./storage/.uploads/nextcloud".to_string() }
    }

    /// `base_dir/{user}/{upload_id}`, after both components are validated.
    pub fn safe_session_dir(&self, user: &str, upload_id: &str) -> (r: Result<String, UploadError>)
        ensures
            r is Ok <==> !is_unsafe_component(user@) && !is_unsafe_component(upload_id@),
            r matches Ok(p) ==> p@ == session_dir(self.base_dir@, user@, upload_id@),
            is_unsafe_component(user@) ==> (r matches Err(UploadError::InvalidComponent(l)) && l@
                == "username"@),
            !is_unsafe_component(user@) && is_unsafe_component(upload_id@) ==> (r matches Err(
                UploadError::InvalidComponent(l),
            ) && l@ == "upload_id"@),
    {
        match Self::validate_path_component(user, "username") {
            Err(e) => return Err(e),
            Ok(()) => {},
        }
        match Self::validate_path_component(upload_id, "upload_id") {
            Err(e) => return Err(e),
            Ok(()) => {},
        }
        let with_user = push(&self.base_dir, user);
        Ok(push(&with_user, upload_id))
    }

    /// `base_dir/{user}/{upload_id}/{chunk_name}`, after all three components
    /// are validated (chunk name first): a returned path is always inside the
    /// session directory.
    pub fn safe_chunk_path(&self, user: &str, upload_id: &str, chunk_name: &str) -> (r: Result<String, UploadError>)
        ensures
            r is Ok <==> !is_unsafe_component(chunk_name@) && !is_unsafe_component(user@)
                && !is_unsafe_component(upload_id@),
            r matches Ok(p) ==> p@ == path_push(
                session_dir(self.base_dir@, user@, upload_id@),
                chunk_name@,
            ),
            is_unsafe_component(chunk_name@) ==> (r matches Err(UploadError::InvalidComponent(l))
                && l@ == "chunk_name"@),
            !is_unsafe_component(chunk_name@) && is_unsafe_component(user@) ==> (r matches Err(
                UploadError::InvalidComponent(l),
            ) && l@ == "username"@),
            !is_unsafe_component(chunk_name@) && !is_unsafe_component(user@) && is_unsafe_component(
                upload_id@,
            ) ==> (r matches Err(UploadError::InvalidComponent(l)) && l@ == "upload_id"@),
    {
        match Self::validate_path_component(chunk_name, "chunk_name") {
            Err(e) => return Err(e),
            Ok(()) => {},
        }
        let dir = self.safe_session_dir(user, upload_id)?;
        Ok(push(&dir, chunk_name))
    }
}

/// One chunk file inside an upload session.
#[derive(Debug, Clone)]
pub struct ChunkInfo {
    pub name: String,
    pub size: u64,
    pub mtime: u64,
}

/// A session's own mtime plus its stored chunks.
#[derive(Debug, Clone)]
pub struct SessionListing {
    pub session_mtime: u64,
    pub chunks: Vec<ChunkInfo>,
}

impl crate::ordering::TextKeyed for ChunkInfo {
    open spec fn rank(&self) -> u8 {
        0
    }

    open spec fn key(&self) -> Seq<char> {
        self.name@
    }

    fn key_rank(&self) -> (r: u8) {
        0
    }

    fn key_text(&self) -> (r: &String) {
        &self.name
    }
}

/// The entries of `names` that are not markers, in order.
pub open spec fn without_markers(names: Seq<String>) -> Seq<String>
    decreases names.len(),
{
    if names.len() == 0 {
        Seq::empty()
    } else {
        let r = without_markers(names.drop_last());
        if is_marker(names.last()@) {
            r
        } else {
            r.push(names.last())
        }
    }
}

/// The number a chunk name spells: decimal digits only, within `u64`.
pub open spec fn chunk_number(name: Seq<char>) -> Option<u64> {
    if name.len() > 0 && all_digits(name) && digits_value(name) <= u64::MAX {
        Some(digits_value(name) as u64)
    } else {
        None
    }
}

/// Assembly order of chunk names: numbered names by their number (ties,
/// such as `1` and `001`, by text), then the names that are not numbers,
/// by text.
pub open spec fn chunk_le(a: Seq<char>, b: Seq<char>) -> bool {
    match (chunk_number(a), chunk_number(b)) {
        (Some(x), Some(y)) => x < y || (x == y && lex_le(a, b)),
        (Some(_), None) => true,
        (None, Some(_)) => false,
        (None, None) => lex_le(a, b),
    }
}

/// Names in assembly order.
pub open spec fn assembly_sorted(s: Seq<String>) -> bool {
    forall|i: int, j: int| 0 <= i < j < s.len() ==> chunk_le(#[trigger] s[i]@, #[trigger] s[j]@)
}

proof fn lemma_chunk_total(a: Seq<char>, b: Seq<char>)
    ensures
        chunk_le(a, b) || chunk_le(b, a),
{
    lemma_lex_total(a, b);
}

proof fn lemma_chunk_trans(a: Seq<char>, b: Seq<char>, c: Seq<char>)
    requires
        chunk_le(a, b),
        chunk_le(b, c),
    ensures
        chunk_le(a, c),
{
    if chunk_le(a, b) && lex_le(a, b) && lex_le(b, c) {
        lemma_lex_trans(a, b, c);
    }
}

fn chunk_number_of(name: &String) -> (r: Option<u64>)
    ensures
        r == chunk_number(name@),
{
    let v = str_chars(name.as_str());
    if v.len() > 0 && v[0] == '+' {
        assert(!is_digit(v@[0]));
        return None;
    }
    parse_u64(&v)
}

fn chunk_le_exec(a: &String, b: &String) -> (r: bool)
    ensures
        r == chunk_le(a@, b@),
{
    match (chunk_number_of(a), chunk_number_of(b)) {
        (Some(x), Some(y)) => x < y || (x == y && text_le(a, b)),
        (Some(_), None) => true,
        (None, Some(_)) => false,
        (None, None) => text_le(a, b),
    }
}

/// Insertion sort into assembly order; the result is a permutation.
fn sort_in_assembly_order(v: Vec<String>) -> (r: Vec<String>)
    ensures
        assembly_sorted(r@),
        r@.to_multiset() == v@.to_multiset(),
{
    let ghost orig = v@;
    let mut rest = v;
    let mut r: Vec<String> = Vec::new();
    let n = rest.len();
    let mut done: usize = 0;
    proof {
        assert(rest@ =~= orig.subrange(0, n as int));
        assert(orig.subrange(0, 0) =~= Seq::<String>::empty());
    }
    while rest.len() > 0
        invariant
            rest@ == orig.subrange(done as int, n as int),
            n == orig.len(),
            done <= n,
            rest@.len() + done == n,
            assembly_sorted(r@),
            r@.to_multiset() == orig.subrange(0, done as int).to_multiset(),
        decreases rest@.len(),
    {
        let x = rest.remove(0);
        proof {
            assert(x == orig[done as int]);
        }
        let mut p: usize = 0;
        while p < r.len() && chunk_le_exec(&r[p], &x)
            invariant
                p <= r@.len(),
                forall|k: int| 0 <= k < p ==> chunk_le(#[trigger] r@[k]@, x@),
            decreases r@.len() - p,
        {
            p += 1;
        }
        let ghost before = r@;
        proof {
            if p < r@.len() {
                lemma_chunk_total(r@[p as int]@, x@);
                assert forall|k: int| p <= k < r@.len() implies chunk_le(x@, #[trigger] r@[k]@) by {
                    if k > p {
                        lemma_chunk_trans(x@, r@[p as int]@, r@[k]@);
                    }
                }
            }
        }
        r.insert(p, x);
        proof {
            assert(r@ =~= before.insert(p as int, x));
            assert forall|i: int, j: int| 0 <= i < j < r@.len() implies chunk_le(#[trigger] r@[i]@, #[trigger] r@[j]@) by {
                if j < p {
                    assert(r@[i] == before[i] && r@[j] == before[j]);
                } else if j == p {
                    assert(r@[i] == before[i]);
                } else if i < p {
                    assert(r@[i] == before[i] && r@[j] == before[j - 1]);
                    lemma_chunk_trans(before[i]@, x@, before[j - 1]@);
                } else if i == p {
                    assert(r@[j] == before[j - 1]);
                } else {
                    assert(r@[i] == before[i - 1] && r@[j] == before[j - 1]);
                }
            }
            assert(orig.subrange(0, done + 1) =~= orig.subrange(0, done as int).push(x));
            vstd::seq_lib::lemma_multiset_commutative(orig.subrange(0, done as int), seq![x]);
            assert(orig.subrange(0, done as int).push(x) =~= orig.subrange(0, done as int) + seq![x]);
            assert(r@.to_multiset() =~= before.to_multiset().insert(x)) by {
                lemma_insert_multiset(before, p as int, x);
            }
            assert(seq![x].to_multiset() =~= vstd::multiset::Multiset::singleton(x)) by {
                broadcast use vstd::seq_lib::group_to_multiset_ensures;
                assert(seq![x] =~= Seq::<String>::empty().push(x));
            }
        }
        done += 1;
    }
    proof {
        assert(orig.subrange(0, n as int) =~= orig);
    }
    r
}

/// The chunk names of a session directory's entries, in assembly order:
/// markers dropped, the rest ordered by the number each name spells (chunks
/// are named `00001`, `00002`, …, so `2` comes before `10`).
pub fn ordered_chunk_names(entries: Vec<String>) -> (r: Vec<String>)
    ensures
        assembly_sorted(r@),
        r@.to_multiset() == without_markers(entries@).to_multiset(),
{
    let ghost all = entries@;
    let mut kept: Vec<String> = Vec::new();
    let mut i: usize = 0;
    while i < entries.len()
        invariant
            i <= entries@.len(),
            all == entries@,
            kept@ == without_markers(all.take(i as int)),
        decreases entries@.len() - i,
    {
        proof {
            assert(all.take(i + 1).drop_last() =~= all.take(i as int));
        }
        if !is_marker_name(&entries[i]) {
            kept.push(entries[i].clone());
        }
        i += 1;
    }
    assert(all.take(i as int) =~= all);
    sort_in_assembly_order(kept)
}

/// The chunks of `chunks` that are not markers, in order.
pub open spec fn chunks_without_markers(chunks: Seq<ChunkInfo>) -> Seq<ChunkInfo>
    decreases chunks.len(),
{
    if chunks.len() == 0 {
        Seq::empty()
    } else {
        let r = chunks_without_markers(chunks.drop_last());
        if is_marker(chunks.last().name@) {
            r
        } else {
            r.push(chunks.last())
        }
    }
}

/// A session's chunk listing with markers dropped, sorted by name.
pub fn ordered_chunk_listing(chunks: Vec<ChunkInfo>) -> (r: Vec<ChunkInfo>)
    ensures
        sorted_by_key(r@),
        r@.to_multiset() == chunks_without_markers(chunks@).to_multiset(),
{
    let ghost all = chunks@;
    let mut kept: Vec<ChunkInfo> = Vec::new();
    let mut rest = chunks;
    let n = rest.len();
    let mut i: usize = 0;
    while rest.len() > 0
        invariant
            rest@ == all.subrange(i as int, n as int),
            n == all.len(),
            i + rest@.len() == n,
            kept@ == chunks_without_markers(all.take(i as int)),
        decreases rest@.len(),
    {
        let c = rest.remove(0);
        proof {
            assert(c == all[i as int]);
            assert(all.take(i + 1).drop_last() =~= all.take(i as int));
            assert(all.take(i + 1).last() == c);
        }
        if !is_marker_name(&c.name) {
            kept.push(c);
        }
        i += 1;
    }
    assert(all.take(n as int) =~= all);
    sort_by_key(kept)
}

proof fn lemma_safe_is_plain(s: Seq<char>)
    requires
        !is_unsafe_component(s),
    ensures
        s.len() > 0,
        !s.contains('/'),
        s != seq!['.'],
{
}

/// A chunk path handed out is always inside its session directory, and the
/// session directory inside the upload root: each validated component adds
/// exactly one path component.
pub proof fn law_chunk_path_inside_session(base: Seq<char>, user: Seq<char>, upload_id: Seq<char>, chunk_name: Seq<char>)
    requires
        !is_unsafe_component(user),
        !is_unsafe_component(upload_id),
        !is_unsafe_component(chunk_name),
    ensures
        crate::fs_path::path_components(session_dir(base, user, upload_id)) == crate::fs_path::path_components(base).push(user).push(upload_id),
        crate::fs_path::path_starts_with(path_push(session_dir(base, user, upload_id), chunk_name), session_dir(base, user, upload_id)),
        crate::fs_path::path_starts_with(session_dir(base, user, upload_id), base),
{
    lemma_safe_is_plain(user);
    lemma_safe_is_plain(upload_id);
    lemma_safe_is_plain(chunk_name);
    crate::fs_path::law_push_adds_component(base, user);
    crate::fs_path::law_push_adds_component(path_push(base, user), upload_id);
    crate::fs_path::law_push_adds_component(session_dir(base, user, upload_id), chunk_name);
    let cb = crate::fs_path::path_components(base);
    let cs = crate::fs_path::path_components(session_dir(base, user, upload_id));
    assert(cs =~= cb.push(user).push(upload_id));
    assert(cb.is_prefix_of(cs)) by {
        assert(cs.take(cb.len() as int) =~= cb);
    }
}

/// Chunks assemble in the order of their numbers: of two names that spell
/// different numbers, the smaller number comes first whatever the texts
/// (`2` before `10`, `00009` before `10`), and every numbered name comes
/// before every name that is not a number.
pub proof fn law_numbered_chunks_in_numeric_order(a: Seq<char>, b: Seq<char>)
    ensures
        (chunk_number(a) matches Some(x) && chunk_number(b) matches Some(y) && x < y) ==> chunk_le(a, b)
            && !chunk_le(b, a),
        (chunk_number(a) is Some && chunk_number(b) is None) ==> chunk_le(a, b) && !chunk_le(b, a),
        chunk_le(a, b) || chunk_le(b, a),
{
    lemma_chunk_total(a, b);
}

} // verus!
