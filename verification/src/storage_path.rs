//! Storage paths: the user-facing, root-relative path of a file or folder,
//! held as its sequence of segments.

use vstd::prelude::*;
use crate::fs_path::split_on;
use crate::seq_facts::string_views;
use crate::text::{push_char, str_chars};

verus! {

/// The segments of a `/`-separated text that name something: empty, `.` and
/// `..` pieces are dropped, so a parsed path can never climb out of its root.
pub open spec fn named_segments(ps: Seq<Seq<char>>) -> Seq<Seq<char>>
    decreases ps.len(),
{
    if ps.len() == 0 {
        Seq::empty()
    } else {
        let r = named_segments(ps.drop_last());
        let x = ps.last();
        if x.len() == 0 || x == seq!['.'] || x == seq!['.', '.'] {
            r
        } else {
            r.push(x)
        }
    }
}

/// `/a/b`: every segment preceded by a separator.
pub open spec fn joined_segments(segs: Seq<Seq<char>>) -> Seq<char>
    decreases segs.len(),
{
    if segs.len() == 0 {
        Seq::empty()
    } else {
        joined_segments(segs.drop_last()).push('/') + segs.last()
    }
}

/// The text form of a path: `/` for the root, else `/a/b`.
pub open spec fn display_segments(segs: Seq<Seq<char>>) -> Seq<char> {
    if segs.len() == 0 {
        seq!['/']
    } else {
        joined_segments(segs)
    }
}

/// A root-relative storage path.
#[derive(Debug, Clone)]
pub struct StoragePath {
    segments: Vec<String>,
}

impl View for StoragePath {
    type V = Seq<Seq<char>>;

    closed spec fn view(&self) -> Seq<Seq<char>> {
        string_views(self.segments@)
    }
}

impl StoragePath {
    /// A path made of exactly these segments.
    pub fn new(segments: Vec<String>) -> (p: Self)
        ensures
            p@ == string_views(segments@),
    {
        StoragePath { segments }
    }

    /// The root path (no segments).
    pub fn root() -> (p: Self)
        ensures
            p@ == Seq::<Seq<char>>::empty(),
    {
        let p = StoragePath { segments: Vec::new() };
        assert(p@ =~= Seq::<Seq<char>>::empty());
        p
    }

    /// Parse `/`-separated text, dropping empty, `.` and `..` pieces.
    pub fn from_string(s: &str) -> (p: Self)
        ensures
            p@ == named_segments(split_on(s@, '/')),
    {
        let v = str_chars(s);
        let pieces = crate::fs_path::split_chars(&v, '/');
        let ghost ps = split_on(s@, '/');
        let mut segments: Vec<String> = Vec::new();
        let mut i: usize = 0;
        while i < pieces.len()
            invariant
                i <= pieces@.len(),
                string_views(pieces@) == ps,
                string_views(segments@) == named_segments(ps.take(i as int)),
            decreases pieces@.len() - i,
        {
            proof {
                assert(ps.take(i + 1).drop_last() =~= ps.take(i as int));
                assert(ps.take(i + 1).last() == pieces@[i as int]@);
            }
            let cs = str_chars(pieces[i].as_str());
            let skip = cs.len() == 0 || (cs.len() == 1 && cs[0] == '.') || (cs.len() == 2 && cs[0]
                == '.' && cs[1] == '.');
            proof {
                if cs@.len() == 1 && cs@[0] == '.' {
                    assert(cs@ =~= seq!['.']);
                }
                if cs@.len() == 2 && cs@[0] == '.' && cs@[1] == '.' {
                    assert(cs@ =~= seq!['.', '.']);
                }
            }
            if !skip {
                let ghost before = string_views(segments@);
                segments.push(pieces[i].clone());
                assert(string_views(segments@) =~= before.push(pieces@[i as int]@));
            }
            i += 1;
        }
        assert(ps.take(i as int) =~= ps);
        StoragePath { segments }
    }

    /// The segments, in order.
    pub fn segments(&self) -> (r: &Vec<String>)
        ensures
            string_views(r@) == self@,
    {
        &self.segments
    }

    /// Whether this is the root.
    pub fn is_empty(&self) -> (b: bool)
        ensures
            b == (self@.len() == 0),
    {
        self.segments.len() == 0
    }

    /// The enclosing path; `None` for the root.
    pub fn parent(&self) -> (r: Option<StoragePath>)
        ensures
            self@.len() == 0 ==> r is None,
            self@.len() > 0 ==> r is Some && r->0@ == self@.drop_last(),
    {
        if self.segments.len() == 0 {
            return None;
        }
        let mut segs: Vec<String> = Vec::new();
        let n = self.segments.len() - 1;
        let mut i: usize = 0;
        while i < n
            invariant
                i <= n,
                n == self.segments@.len() - 1,
                string_views(segs@) == string_views(self.segments@).take(i as int),
            decreases n - i,
        {
            let ghost before = string_views(segs@);
            let ghost old_segs = segs@;
            segs.push(self.segments[i].clone());
            assert(string_views(segs@) =~= string_views(old_segs).push(self.segments@[i as int]@));
            assert(string_views(segs@) =~= string_views(self.segments@).take(i + 1));
            i += 1;
        }
        let p = StoragePath { segments: segs };
        assert(p@ =~= self@.drop_last());
        Some(p)
    }

    /// This path with `name` appended as a last segment.
    pub fn join(self, name: &str) -> (p: StoragePath)
        ensures
            p@ == self@.push(name@),
    {
        let mut segments = self.segments;
        let ghost before = string_views(segments@);
        let v = str_chars(name);
        let s = crate::text::string_from_chars(&v, 0, v.len());
        assert(v@.subrange(0, v@.len() as int) =~= v@);
        segments.push(s);
        let p = StoragePath { segments };
        assert(p@ =~= before.push(name@));
        p
    }

    /// Whether two paths have the same segments.
    pub fn same_as(&self, other: &StoragePath) -> (b: bool)
        ensures
            b == (self@ == other@),
    {
        if self.segments.len() != other.segments.len() {
            assert(self@.len() != other@.len());
            return false;
        }
        let mut i: usize = 0;
        while i < self.segments.len()
            invariant
                i <= self.segments@.len(),
                self.segments@.len() == other.segments@.len(),
                forall|j: int| 0 <= j < i ==> self.segments@[j]@ == other.segments@[j]@,
            decreases self.segments@.len() - i,
        {
            let same = self.segments[i] == other.segments[i];
            if !same {
                assert(self@[i as int] != other@[i as int]);
                return false;
            }
            i += 1;
        }
        assert(self@ =~= other@);
        true
    }

    /// The text form: `/` for the root, else `/a/b`.
    pub fn to_string(&self) -> (s: String)
        ensures
            s@ == display_segments(self@),
    {
        let mut out = String::new();
        if self.segments.len() == 0 {
            push_char(&mut out, '/');
            return out;
        }
        let mut i: usize = 0;
        while i < self.segments.len()
            invariant
                i <= self.segments@.len(),
                out@ == joined_segments(string_views(self.segments@).take(i as int)),
            decreases self.segments@.len() - i,
        {
            let ghost all = string_views(self.segments@);
            proof {
                assert(all.take(i + 1).drop_last() =~= all.take(i as int));
                assert(all.take(i + 1).last() == self.segments@[i as int]@);
            }
            push_char(&mut out, '/');
            let cs = str_chars(self.segments[i].as_str());
            let ghost base = out@;
            let mut k: usize = 0;
            while k < cs.len()
                invariant
                    k <= cs@.len(),
                    out@ == base + cs@.take(k as int),
                decreases cs@.len() - k,
            {
                push_char(&mut out, cs[k]);
                assert(cs@.take(k + 1) =~= cs@.take(k as int).push(cs@[k as int]));
                k += 1;
            }
            assert(cs@.take(k as int) =~= cs@);
            i += 1;
        }
        assert(string_views(self.segments@).take(i as int) =~= self@);
        out
    }
}

/// A parsed path holds only names: no empty, `.` or `..` segment, so it can
/// never climb out of the root it is resolved under.
pub proof fn law_parsed_segments_are_names(ps: Seq<Seq<char>>)
    ensures
        forall|i: int| 0 <= i < named_segments(ps).len() ==> {
            let x = #[trigger] named_segments(ps)[i];
            x.len() > 0 && x != seq!['.'] && x != seq!['.', '.']
        },
    decreases ps.len(),
{
    if ps.len() > 0 {
        law_parsed_segments_are_names(ps.drop_last());
        let r = named_segments(ps.drop_last());
        assert forall|i: int| 0 <= i < named_segments(ps).len() implies {
            let x = #[trigger] named_segments(ps)[i];
            x.len() > 0 && x != seq!['.'] && x != seq!['.', '.']
        } by {
            if i < r.len() {
                assert(named_segments(ps)[i] == r[i]);
            }
        }
    }
}

/// A segment that names something and holds no separator.
pub open spec fn is_plain_name(x: Seq<char>) -> bool {
    x.len() > 0 && x != seq!['.'] && x != seq!['.', '.'] && !x.contains('/')
}

proof fn lemma_split_joined(segs: Seq<Seq<char>>)
    requires
        forall|i: int| 0 <= i < segs.len() ==> is_plain_name(#[trigger] segs[i]),
    ensures
        split_on(joined_segments(segs), '/') == seq![Seq::<char>::empty()] + segs,
    decreases segs.len(),
{
    if segs.len() == 0 {
        assert(seq![Seq::<char>::empty()] + segs =~= seq![Seq::<char>::empty()]);
    } else {
        let init = segs.drop_last();
        let name = segs.last();
        assert(is_plain_name(segs[segs.len() - 1]));
        lemma_split_joined(init);
        let x = joined_segments(init);
        assert forall|j: int| 0 <= j < name.len() implies name[j] != '/' by {
            if name[j] == '/' {
                assert(name.contains('/'));
            }
        }
        crate::fs_path::lemma_split_append_plain(x.push('/'), name, '/');
        assert(x.push('/').drop_last() =~= x);
        crate::fs_path::lemma_split_on_nonempty(x, '/');
        let px = split_on(x.push('/'), '/');
        assert(px == split_on(x, '/').push(Seq::<char>::empty()));
        assert(px.last() + name =~= name);
        assert(split_on(joined_segments(segs), '/') =~= split_on(x, '/').push(name));
        assert(seq![Seq::<char>::empty()] + segs =~= (seq![Seq::<char>::empty()] + init).push(name));
    }
}

proof fn lemma_named_after_empty(segs: Seq<Seq<char>>)
    requires
        forall|i: int| 0 <= i < segs.len() ==> is_plain_name(#[trigger] segs[i]),
    ensures
        named_segments(seq![Seq::<char>::empty()] + segs) == segs,
    decreases segs.len(),
{
    let all = seq![Seq::<char>::empty()] + segs;
    if segs.len() == 0 {
        assert(all =~= seq![Seq::<char>::empty()]);
        assert(all.drop_last() =~= Seq::<Seq<char>>::empty());
        assert(named_segments(all.drop_last()) == Seq::<Seq<char>>::empty());
        assert(all.last().len() == 0);
        assert(named_segments(all) == named_segments(all.drop_last()));
    } else {
        let last = segs.last();
        assert(is_plain_name(segs[segs.len() - 1]));
        lemma_named_after_empty(segs.drop_last());
        assert(all.drop_last() =~= seq![Seq::<char>::empty()] + segs.drop_last());
        assert(all.last() == last);
        assert(last.len() > 0 && last != seq!['.'] && last != seq!['.', '.']);
        assert(named_segments(all) == named_segments(all.drop_last()).push(last));
        assert(segs.drop_last().push(last) =~= segs);
    }
}

/// Parsing the text form of a path whose segments are plain names (non-empty,
/// not `.` or `..`, without `/`) gives back the same path.
pub proof fn law_display_then_parse(path: StoragePath)
    requires
        forall|i: int| 0 <= i < path@.len() ==> is_plain_name(#[trigger] path@[i]),
    ensures
        named_segments(split_on(display_segments(path@), '/')) == path@,
{
    let segs = path@;
    if segs.len() == 0 {
        let t = seq!['/'];
        assert(display_segments(segs) == t);
        assert(t.drop_last() =~= Seq::<char>::empty());
        assert(t.last() == '/');
        assert(split_on(Seq::<char>::empty(), '/') == seq![Seq::<char>::empty()]);
        assert(split_on(t, '/') == split_on(t.drop_last(), '/').push(Seq::<char>::empty()));
        assert(split_on(t, '/') =~= seq![Seq::<char>::empty(), Seq::<char>::empty()]);
        let ps = seq![Seq::<char>::empty(), Seq::<char>::empty()];
        assert(ps.drop_last() =~= seq![Seq::<char>::empty()]);
        lemma_named_after_empty(Seq::<Seq<char>>::empty());
        assert(seq![Seq::<char>::empty()] + Seq::<Seq<char>>::empty() =~= seq![Seq::<char>::empty()]);
        assert(ps.last().len() == 0);
        assert(named_segments(ps) == named_segments(ps.drop_last()));
    } else {
        lemma_split_joined(segs);
        lemma_named_after_empty(segs);
    }
}

} // verus!
