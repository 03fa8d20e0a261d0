//! Mapping between storage paths and physical paths under a storage root,
//! with the defense-in-depth checks that keep resolved paths inside the root.

use vstd::prelude::*;
use crate::fs_path::{components, keep_normal, normal_components, path_components, path_push, path_starts_with, push, starts_with};
use crate::seq_facts::string_views;
use crate::storage_path::{display_segments, StoragePath};
use crate::text::{push_text, str_chars};

verus! {

/// Why a storage path was refused.
#[derive(Debug, Clone)]
pub enum PathError {
    /// A segment is empty; holds the path's text form.
    EmptySegment(String),
    /// A segment holds one of `/ \ : * ? " < > |`; holds the segment.
    DangerousCharacters(String),
    /// A segment starts with `.` (other than `.well-known`); holds the
    /// segment.
    HiddenSegment(String),
    /// The resolved physical path is not below the storage root; holds that
    /// path.
    EscapesRoot(String),
}

/// The text of a refusal.
pub open spec fn path_error_message(e: PathError) -> Seq<char> {
    match e {
        PathError::EmptySegment(p) => "Path contains empty segments: "@ + p@,
        PathError::DangerousCharacters(s) => "Path contains dangerous characters: "@ + s@,
        PathError::HiddenSegment(s) => "Path segments cannot start with dot: "@ + s@,
        PathError::EscapesRoot(p) => "Resolved path escapes storage root: "@ + p@,
    }
}

impl PathError {
    /// A human-readable description.
    pub fn message(&self) -> (m: String)
        ensures
            m@ == path_error_message(*self),
    {
        let mut m = String::new();
        match self {
            PathError::EmptySegment(p) => {
                push_text(&mut m, "Path contains empty segments: ");
                push_text(&mut m, p.as_str());
            },
            PathError::DangerousCharacters(s) => {
                push_text(&mut m, "Path contains dangerous characters: ");
                push_text(&mut m, s.as_str());
            },
            PathError::HiddenSegment(s) => {
                push_text(&mut m, "Path segments cannot start with dot: ");
                push_text(&mut m, s.as_str());
            },
            PathError::EscapesRoot(p) => {
                push_text(&mut m, "Resolved path escapes storage root: ");
                push_text(&mut m, p.as_str());
            },
        }
        m
    }
}

/// Whether `c` is refused inside a segment: a separator (a segment holding
/// `/` would resolve to several components, `..` among them) or a character
/// unsafe in file names.
pub open spec fn is_dangerous_char(c: char) -> bool {
    c == '/' || c == '\\' || c == ':' || c == '*' || c == '?' || c == '"' || c == '<' || c == '>' || c == '|'
}

pub open spec fn has_dangerous_char(s: Seq<char>) -> bool {
    exists|i: int| 0 <= i < s.len() && is_dangerous_char(#[trigger] s[i])
}

/// A segment hidden on Unix: starts with `.`, except `.well-known`.
pub open spec fn is_hidden_segment(s: Seq<char>) -> bool {
    s.len() > 0 && s[0] == '.' && s != seq!['.', 'w', 'e', 'l', 'l', '-', 'k', 'n', 'o', 'w', 'n']
}

pub open spec fn segment_ok(s: Seq<char>) -> bool {
    !has_dangerous_char(s) && !is_hidden_segment(s)
}

/// The physical path reached by pushing every segment onto `root`.
pub open spec fn pushed_path(root: Seq<char>, segs: Seq<Seq<char>>) -> Seq<char>
    decreases segs.len(),
{
    if segs.len() == 0 {
        root
    } else {
        path_push(pushed_path(root, segs.drop_last()), segs.last())
    }
}

fn segment_has_dangerous_char(s: &String) -> (b: bool)
    ensures
        b == has_dangerous_char(s@),
{
    let v = str_chars(s.as_str());
    let mut i: usize = 0;
    while i < v.len()
        invariant
            i <= v@.len(),
            v@ == s@,
            forall|j: int| 0 <= j < i ==> !is_dangerous_char(v@[j]),
        decreases v@.len() - i,
    {
        let c = v[i];
        if c == '/' || c == '\\' || c == ':' || c == '*' || c == '?' || c == '"' || c == '<' || c == '>' || c
            == '|' {
            assert(is_dangerous_char(s@[i as int]));
            return true;
        }
        i += 1;
    }
    false
}

fn segment_is_hidden(s: &String) -> (b: bool)
    ensures
        b == is_hidden_segment(s@),
{
    let v = str_chars(s.as_str());
    if v.len() == 0 || v[0] != '.' {
        return false;
    }
    let wk: Vec<char> = vec!['.', 'w', 'e', 'l', 'l', '-', 'k', 'n', 'o', 'w', 'n'];
    let same = crate::text::chars_equal(&v, &wk);
    assert(wk@ =~= seq!['.', 'w', 'e', 'l', 'l', '-', 'k', 'n', 'o', 'w', 'n']);
    !same
}

/// Storage-root path service.
#[derive(Debug, Clone)]
pub struct PathService {
    root_path: String,
}

impl PathService {
    /// The physical root this service resolves under.
    pub closed spec fn root(&self) -> Seq<char> {
        self.root_path@
    }

    pub fn new(root_path: String) -> (s: Self)
        ensures
            s.root() == root_path@,
    {
        PathService { root_path }
    }

    /// The root path used by this service.
    pub fn get_root_path(&self) -> (r: &String)
        ensures
            r@ == self.root(),
    {
        &self.root_path
    }

    /// Refuse paths with empty segments, dangerous characters, or hidden
    /// segments. Empty segments are reported first; otherwise the first
    /// offending segment is reported.
    pub fn validate_path(&self, path: &StoragePath) -> (r: Result<(), PathError>)
        ensures
            r is Ok <==> (forall|i: int|
                0 <= i < path@.len() ==> (#[trigger] path@[i]).len() > 0 && segment_ok(path@[i])),
            (exists|i: int| 0 <= i < path@.len() && (#[trigger] path@[i]).len() == 0) <==> r matches Err(
                PathError::EmptySegment(_),
            ),
            r matches Err(PathError::EmptySegment(t)) ==> t@ == display_segments(path@),
            r matches Err(PathError::DangerousCharacters(s)) ==> exists|i: int|
                0 <= i < path@.len() && path@[i] == s@ && has_dangerous_char(s@) && forall|j: int|
                    0 <= j < i ==> segment_ok(#[trigger] path@[j]),
            r matches Err(PathError::HiddenSegment(s)) ==> exists|i: int|
                0 <= i < path@.len() && path@[i] == s@ && !has_dangerous_char(s@)
                    && is_hidden_segment(s@) && forall|j: int| 0 <= j < i ==> segment_ok(
                    #[trigger] path@[j],
                ),
            r matches Err(PathError::EscapesRoot(_)) ==> false,
    {
        let segs = path.segments();
        let mut i: usize = 0;
        while i < segs.len()
            invariant
                i <= segs@.len(),
                string_views(segs@) == path@,
                forall|j: int| 0 <= j < i ==> (#[trigger] path@[j]).len() > 0,
            decreases segs@.len() - i,
        {
            if segs[i].as_str().is_empty() {
                assert(path@[i as int].len() == 0);
                return Err(PathError::EmptySegment(path.to_string()));
            }
            i += 1;
        }
        let mut i: usize = 0;
        while i < segs.len()
            invariant
                i <= segs@.len(),
                string_views(segs@) == path@,
                forall|j: int| 0 <= j < path@.len() ==> (#[trigger] path@[j]).len() > 0,
                forall|j: int| 0 <= j < i ==> segment_ok(#[trigger] path@[j]),
            decreases segs@.len() - i,
        {
            if segment_has_dangerous_char(&segs[i]) {
                assert(path@[i as int] == segs@[i as int]@);
                return Err(PathError::DangerousCharacters(segs[i].clone()));
            }
            if segment_is_hidden(&segs[i]) {
                assert(path@[i as int] == segs@[i as int]@);
                return Err(PathError::HiddenSegment(segs[i].clone()));
            }
            assert(segment_ok(path@[i as int]));
            i += 1;
        }
        Ok(())
    }

    /// Convert a storage path to the physical path under the root. Refused
    /// when the path does not validate, or (defense in depth) when the
    /// result is not below the root. A resolved path is the root's
    /// components followed by exactly the path's segments, none of them `..`
    /// or `.`: it never climbs out of the root.
    pub fn resolve_path(&self, storage_path: &StoragePath) -> (r: Result<String, PathError>)
        ensures
            match r {
                Ok(p) => {
                    &&& self.validate_path_ok(storage_path@)
                    &&& p@ == pushed_path(self.root(), storage_path@)
                    &&& path_starts_with(p@, self.root())
                    &&& path_components(p@) == path_components(self.root()) + storage_path@
                    &&& forall|i: int| 0 <= i < storage_path@.len() ==> #[trigger] storage_path@[i] != seq!['.', '.']
                        && storage_path@[i] != seq!['.'] && !storage_path@[i].contains('/')
                },
                Err(PathError::EscapesRoot(p)) => {
                    &&& self.validate_path_ok(storage_path@)
                    &&& p@ == pushed_path(self.root(), storage_path@)
                    &&& !path_starts_with(p@, self.root())
                },
                Err(_) => !self.validate_path_ok(storage_path@),
            },
    {
        match self.validate_path(storage_path) {
            Err(e) => return Err(e),
            Ok(()) => {},
        }
        let segs = storage_path.segments();
        let mut path = self.root_path.clone();
        let mut i: usize = 0;
        while i < segs.len()
            invariant
                i <= segs@.len(),
                string_views(segs@) == storage_path@,
                path@ == pushed_path(self.root_path@, storage_path@.take(i as int)),
            decreases segs@.len() - i,
        {
            proof {
                assert(storage_path@.take(i + 1).drop_last() =~= storage_path@.take(i as int));
                assert(storage_path@.take(i + 1).last() == segs@[i as int]@);
            }
            path = push(&path, segs[i].as_str());
            i += 1;
        }
        assert(storage_path@.take(i as int) =~= storage_path@);
        proof {
            lemma_valid_segments_plain(storage_path@);
            lemma_pushed_components(self.root_path@, storage_path@);
        }
        if !starts_with(path.as_str(), self.root_path.as_str()) {
            return Err(PathError::EscapesRoot(path));
        }
        Ok(path)
    }

    /// Whether `segs` passes [`Self::validate_path`].
    pub open spec fn validate_path_ok(&self, segs: Seq<Seq<char>>) -> bool {
        forall|i: int| 0 <= i < segs.len() ==> (#[trigger] segs[i]).len() > 0 && segment_ok(segs[i])
    }

    /// The storage path of a physical path below the root: its plain-name
    /// components after the root's. `None` when it is not below the root.
    pub fn to_storage_path(&self, physical_path: &str) -> (r: Option<StoragePath>)
        ensures
            r is Some <==> path_starts_with(physical_path@, self.root()),
            r matches Some(p) ==> p@ == normal_components(
                path_components(physical_path@).skip(path_components(self.root()).len() as int),
            ),
    {
        if !starts_with(physical_path, self.root_path.as_str()) {
            return None;
        }
        let pc = components(physical_path);
        let rc = components(self.root_path.as_str());
        let mut rest: Vec<String> = Vec::new();
        let mut i = rc.len();
        let ghost all = string_views(pc@);
        let ghost skip = path_components(self.root_path@).len();
        assert(skip == rc@.len());
        while i < pc.len()
            invariant
                rc@.len() <= i <= pc@.len(),
                all == string_views(pc@),
                skip == rc@.len(),
                string_views(rest@) == all.subrange(skip as int, i as int),
            decreases pc@.len() - i,
        {
            let ghost before = string_views(rest@);
            rest.push(pc[i].clone());
            assert(string_views(rest@) =~= before.push(pc@[i as int]@));
            assert(all.subrange(skip as int, i + 1) =~= all.subrange(skip as int, i as int).push(
                all[i as int],
            ));
            i += 1;
        }
        assert(all.subrange(skip as int, i as int) =~= all.skip(skip as int));
        let normal = keep_normal(&rest);
        Some(StoragePath::new(normal))
    }

    /// `file_name` inside `folder_path`.
    pub fn create_file_path(&self, folder_path: &StoragePath, file_name: &str) -> (r: StoragePath)
        ensures
            r@ == folder_path@.push(file_name@),
    {
        let copy = StoragePath::new(folder_path.segments().clone());
        proof {
            assert(copy@ == folder_path@);
        }
        copy.join(file_name)
    }

    /// Whether `potential_child`'s parent is `parent_path`; the root, which
    /// has no parent, counts as a child of the root.
    pub fn is_direct_child(&self, parent_path: &StoragePath, potential_child: &StoragePath) -> (b: bool)
        ensures
            b == if potential_child@.len() > 0 {
                potential_child@.drop_last() == parent_path@
            } else {
                parent_path@.len() == 0
            },
    {
        match potential_child.parent() {
            Some(p) => p.same_as(parent_path),
            None => parent_path.is_empty(),
        }
    }

    /// Whether the path sits directly in the root.
    pub fn is_in_root(&self, path: &StoragePath) -> (b: bool)
        ensures
            b == (path@.len() <= 1),
    {
        match path.parent() {
            None => true,
            Some(p) => p.is_empty(),
        }
    }
}

/// A segment that validates is a plain name: no separator, not `.` or `..`.
proof fn lemma_valid_segments_plain(segs: Seq<Seq<char>>)
    requires
        forall|i: int| 0 <= i < segs.len() ==> (#[trigger] segs[i]).len() > 0 && segment_ok(segs[i]),
    ensures
        forall|i: int|
            0 <= i < segs.len() ==> !(#[trigger] segs[i]).contains('/') && segs[i] != seq!['.', '.']
                && segs[i] != seq!['.'],
{
    assert forall|i: int| 0 <= i < segs.len() implies !(#[trigger] segs[i]).contains('/') && segs[i] != seq![
        '.',
        '.',
    ] && segs[i] != seq!['.'] by {
        let x = segs[i];
        assert(segment_ok(x));
        if x.contains('/') {
            let k = choose|k: int| 0 <= k < x.len() && x[k] == '/';
            assert(is_dangerous_char(x[k]));
        }
        if x == seq!['.', '.'] || x == seq!['.'] {
            assert(is_hidden_segment(x));
        }
    }
}

proof fn lemma_pushed_components(root: Seq<char>, segs: Seq<Seq<char>>)
    requires
        forall|i: int|
            0 <= i < segs.len() ==> (#[trigger] segs[i]).len() > 0 && segment_ok(segs[i]) && !segs[i].contains('/'),
    ensures
        path_components(pushed_path(root, segs)) == path_components(root) + segs,
    decreases segs.len(),
{
    if segs.len() == 0 {
        assert(path_components(root) + segs =~= path_components(root));
    } else {
        let init = segs.drop_last();
        let name = segs.last();
        assert(segs[segs.len() - 1] == name);
        lemma_pushed_components(root, init);
        assert(name != seq!['.']) by {
            if name == seq!['.'] {
                assert(is_hidden_segment(name));
            }
        }
        crate::fs_path::law_push_adds_component(pushed_path(root, init), name);
        assert(path_components(root) + segs =~= (path_components(root) + init).push(name));
    }
}

proof fn lemma_names_are_normal(segs: Seq<Seq<char>>)
    requires
        forall|i: int|
            0 <= i < segs.len() ==> (#[trigger] segs[i]).len() > 0 && segment_ok(segs[i]) && !segs[i].contains('/'),
    ensures
        normal_components(segs) == segs,
    decreases segs.len(),
{
    if segs.len() > 0 {
        let name = segs.last();
        assert(segs[segs.len() - 1] == name);
        lemma_names_are_normal(segs.drop_last());
        assert(name != seq!['/']) by {
            if name == seq!['/'] {
                assert(name[0] == '/');
                assert(name.contains('/'));
            }
        }
        assert(name != seq!['.'] && name != seq!['.', '.']) by {
            if name == seq!['.'] || name == seq!['.', '.'] {
                assert(is_hidden_segment(name));
            }
        }
        assert(segs.drop_last().push(name) =~= segs);
    }
}

/// A storage path that validates resolves under the root to a physical path
/// that maps back to the same storage path: `to_storage_path` undoes
/// `resolve_path`.
pub proof fn law_resolve_then_back(service: PathService, path: StoragePath)
    requires
        service.validate_path_ok(path@),
    ensures
        path_starts_with(pushed_path(service.root(), path@), service.root()),
        normal_components(
            path_components(pushed_path(service.root(), path@)).skip(
                path_components(service.root()).len() as int,
            ),
        ) == path@,
{
    let segs = path@;
    let root = service.root();
    lemma_valid_segments_plain(segs);
    lemma_pushed_components(root, segs);
    lemma_names_are_normal(segs);
    let rc = path_components(root);
    let pc = path_components(pushed_path(root, segs));
    assert(pc.skip(rc.len() as int) =~= segs);
    assert(rc.is_prefix_of(pc)) by {
        assert(pc.take(rc.len() as int) =~= rc);
    }
}

} // verus!
