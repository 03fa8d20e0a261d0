//! Filesystem paths held as text, with the component semantics of
//! `std::path` on Unix: `/` separates components, a leading `/` is the root
//! component, empty and `.` components are skipped (a leading `.` of a
//! relative path is kept as the current-directory component), `..` is kept.

use vstd::prelude::*;
use crate::seq_facts::string_views;
use crate::text::{push_char, str_chars, string_from_chars};

verus! {

/// `s` split at every `sep`; the pieces may be empty.
pub open spec fn split_on(s: Seq<char>, sep: char) -> Seq<Seq<char>>
    decreases s.len(),
{
    if s.len() == 0 {
        seq![Seq::<char>::empty()]
    } else {
        let r = split_on(s.drop_last(), sep);
        if s.last() == sep {
            r.push(Seq::<char>::empty())
        } else {
            r.update(r.len() - 1, r.last().push(s.last()))
        }
    }
}

pub proof fn lemma_split_on_nonempty(s: Seq<char>, sep: char)
    ensures
        split_on(s, sep).len() >= 1,
    decreases s.len(),
{
    if s.len() > 0 {
        lemma_split_on_nonempty(s.drop_last(), sep);
    }
}

/// The pieces that name something: neither empty nor `.`.
pub open spec fn named_pieces(ps: Seq<Seq<char>>) -> Seq<Seq<char>>
    decreases ps.len(),
{
    if ps.len() == 0 {
        Seq::empty()
    } else {
        let r = named_pieces(ps.drop_last());
        if ps.last().len() == 0 || ps.last() == seq!['.'] {
            r
        } else {
            r.push(ps.last())
        }
    }
}

/// The components of a path. The root component is written `/`, the
/// current-directory component `.`.
pub open spec fn path_components(p: Seq<char>) -> Seq<Seq<char>> {
    let ps = split_on(p, '/');
    if p.len() > 0 && p[0] == '/' {
        seq![seq!['/']] + named_pieces(ps)
    } else if ps[0] == seq!['.'] {
        seq![seq!['.']] + named_pieces(ps)
    } else {
        named_pieces(ps)
    }
}

/// `Path::starts_with`: the components of `base` are a prefix of those of `p`.
pub open spec fn path_starts_with(p: Seq<char>, base: Seq<char>) -> bool {
    path_components(base).is_prefix_of(path_components(p))
}

/// `PathBuf::push`: an absolute `seg` replaces the path; otherwise `seg` is
/// appended, with a separator unless the path is empty or already ends in one.
pub open spec fn path_push(p: Seq<char>, seg: Seq<char>) -> Seq<char> {
    if seg.len() > 0 && seg[0] == '/' {
        seg
    } else if p.len() == 0 || p.last() == '/' {
        p + seg
    } else {
        p.push('/') + seg
    }
}

/// Components of `p` that are plain names (not root, `.` or `..`).
pub open spec fn normal_components(cs: Seq<Seq<char>>) -> Seq<Seq<char>>
    decreases cs.len(),
{
    if cs.len() == 0 {
        Seq::empty()
    } else {
        let r = normal_components(cs.drop_last());
        if cs.last() == seq!['/'] || cs.last() == seq!['.'] || cs.last() == seq!['.', '.'] {
            r
        } else {
            r.push(cs.last())
        }
    }
}

/// The pieces of `v` split at every `sep`, as strings.
pub fn split_chars(v: &Vec<char>, sep: char) -> (r: Vec<String>)
    ensures
        string_views(r@) == split_on(v@, sep),
{
    let mut r: Vec<String> = Vec::new();
    let mut cur = String::new();
    let mut i: usize = 0;
    while i < v.len()
        invariant
            i <= v@.len(),
            string_views(r@).push(cur@) == split_on(v@.take(i as int), sep),
        decreases v@.len() - i,
    {
        let c = v[i];
        let ghost before = string_views(r@).push(cur@);
        proof {
            assert(v@.take(i + 1).drop_last() =~= v@.take(i as int));
            assert(v@.take(i + 1).last() == c);
        }
        if c == sep {
            let mut next = String::new();
            std::mem::swap(&mut next, &mut cur);
            let ghost old_r = string_views(r@);
            r.push(next);
            assert(string_views(r@) =~= old_r.push(next@));
            assert(string_views(r@).push(cur@) =~= before.push(Seq::<char>::empty()));
        } else {
            push_char(&mut cur, c);
            assert(string_views(r@).push(cur@) =~= before.update(
                before.len() - 1,
                before.last().push(c),
            ));
        }
        i += 1;
    }
    assert(v@.take(i as int) =~= v@);
    let ghost old_r = string_views(r@);
    r.push(cur);
    assert(string_views(r@) =~= old_r.push(cur@));
    r
}

fn is_dot(s: &String) -> (b: bool)
    ensures
        b == (s@ == seq!['.']),
{
    let v = str_chars(s.as_str());
    if v.len() == 1 && v[0] == '.' {
        assert(v@ =~= seq!['.']);
        true
    } else {
        false
    }
}

fn is_dot_dot(s: &String) -> (b: bool)
    ensures
        b == (s@ == seq!['.', '.']),
{
    let v = str_chars(s.as_str());
    if v.len() == 2 && v[0] == '.' && v[1] == '.' {
        assert(v@ =~= seq!['.', '.']);
        true
    } else {
        false
    }
}

fn is_root_mark(s: &String) -> (b: bool)
    ensures
        b == (s@ == seq!['/']),
{
    let v = str_chars(s.as_str());
    if v.len() == 1 && v[0] == '/' {
        assert(v@ =~= seq!['/']);
        true
    } else {
        false
    }
}

/// The components of a path, as strings.
pub fn components(p: &str) -> (r: Vec<String>)
    ensures
        string_views(r@) == path_components(p@),
{
    let v = str_chars(p);
    let pieces = split_chars(&v, '/');
    let ghost ps = split_on(p@, '/');
    proof {
        lemma_split_on_nonempty(p@, '/');
    }
    let mut r: Vec<String> = Vec::new();
    if v.len() > 0 && v[0] == '/' {
        let mut m = String::new();
        push_char(&mut m, '/');
        r.push(m);
    } else if is_dot(&pieces[0]) {
        assert(string_views(pieces@)[0] == pieces@[0]@);
        let mut m = String::new();
        push_char(&mut m, '.');
        r.push(m);
    } else {
        assert(string_views(pieces@)[0] == pieces@[0]@);
    }
    let ghost prefix = string_views(r@);
    let mut i: usize = 0;
    while i < pieces.len()
        invariant
            i <= pieces@.len(),
            string_views(pieces@) == ps,
            string_views(r@) == prefix + named_pieces(ps.take(i as int)),
        decreases pieces@.len() - i,
    {
        proof {
            assert(ps.take(i + 1).drop_last() =~= ps.take(i as int));
            assert(ps.take(i + 1).last() == pieces@[i as int]@);
        }
        if pieces[i].as_str().is_empty() || is_dot(&pieces[i]) {
        } else {
            let ghost old_r = string_views(r@);
            r.push(pieces[i].clone());
            assert(string_views(r@) =~= old_r.push(pieces@[i as int]@));
        }
        i += 1;
    }
    assert(ps.take(i as int) =~= ps);
    r
}

/// Whether the components of `base` are a prefix of those of `p`.
pub fn starts_with(p: &str, base: &str) -> (b: bool)
    ensures
        b == path_starts_with(p@, base@),
{
    let pc = components(p);
    let bc = components(base);
    let ghost pv = string_views(pc@);
    let ghost bv = string_views(bc@);
    if bc.len() > pc.len() {
        assert(bv.len() > pv.len());
        return false;
    }
    let mut i: usize = 0;
    while i < bc.len()
        invariant
            i <= bc@.len(),
            bc@.len() <= pc@.len(),
            pv == string_views(pc@),
            bv == string_views(bc@),
            pv == path_components(p@),
            bv == path_components(base@),
            forall|j: int| 0 <= j < i ==> pv[j] == bv[j],
        decreases bc@.len() - i,
    {
        let same = bc[i] == pc[i];
        proof {
            assert(pv[i as int] == pc@[i as int]@);
            assert(bv[i as int] == bc@[i as int]@);
        }
        if !same {
            assert(pv[i as int] == pc@[i as int]@);
            assert(bv[i as int] == bc@[i as int]@);
            assert(bv[i as int] != pv[i as int]);
            assert(pv.subrange(0, bv.len() as int)[i as int] == pv[i as int]);
            assert(!(bv =~= pv.subrange(0, bv.len() as int)));
            return false;
        }
        i += 1;
    }
    assert(bv =~= pv.subrange(0, bv.len() as int));
    true
}

/// `PathBuf::push`.
pub fn push(p: &String, seg: &str) -> (r: String)
    ensures
        r@ == path_push(p@, seg@),
{
    let sv = str_chars(seg);
    let pv = str_chars(p.as_str());
    if sv.len() > 0 && sv[0] == '/' {
        return string_from_chars(&sv, 0, sv.len());
    }
    let mut out = string_from_chars(&pv, 0, pv.len());
    assert(pv@.subrange(0, pv@.len() as int) =~= pv@);
    if pv.len() > 0 && pv[pv.len() - 1] != '/' {
        push_char(&mut out, '/');
    }
    let mut i: usize = 0;
    let ghost base = out@;
    while i < sv.len()
        invariant
            i <= sv@.len(),
            out@ == base + sv@.take(i as int),
        decreases sv@.len() - i,
    {
        push_char(&mut out, sv[i]);
        assert(sv@.take(i + 1) =~= sv@.take(i as int).push(sv@[i as int]));
        i += 1;
    }
    assert(sv@.take(i as int) =~= sv@);
    out
}

/// The plain-name components of `cs`, in order.
pub fn keep_normal(cs: &Vec<String>) -> (r: Vec<String>)
    ensures
        string_views(r@) == normal_components(string_views(cs@)),
{
    let ghost all = string_views(cs@);
    let mut r: Vec<String> = Vec::new();
    let mut i: usize = 0;
    while i < cs.len()
        invariant
            i <= cs@.len(),
            all == string_views(cs@),
            string_views(r@) == normal_components(all.take(i as int)),
        decreases cs@.len() - i,
    {
        proof {
            assert(all.take(i + 1).drop_last() =~= all.take(i as int));
            assert(all.take(i + 1).last() == cs@[i as int]@);
        }
        if !(is_root_mark(&cs[i]) || is_dot(&cs[i]) || is_dot_dot(&cs[i])) {
            let ghost old_r = string_views(r@);
            r.push(cs[i].clone());
            assert(string_views(r@) =~= old_r.push(cs@[i as int]@));
        }
        i += 1;
    }
    assert(all.take(i as int) =~= all);
    r
}

/// Appending text without separators extends the last piece.
pub proof fn lemma_split_append_plain(s: Seq<char>, t: Seq<char>, sep: char)
    requires
        forall|j: int| 0 <= j < t.len() ==> t[j] != sep,
    ensures
        split_on(s + t, sep) == split_on(s, sep).update(
            split_on(s, sep).len() - 1,
            split_on(s, sep).last() + t,
        ),
    decreases t.len(),
{
    lemma_split_on_nonempty(s, sep);
    if t.len() == 0 {
        assert(s + t =~= s);
        assert(split_on(s, sep).last() + t =~= split_on(s, sep).last());
        assert(split_on(s, sep).update(split_on(s, sep).len() - 1, split_on(s, sep).last()) =~= split_on(s, sep));
    } else {
        let u = t.drop_last();
        lemma_split_append_plain(s, u, sep);
        assert((s + t).drop_last() =~= s + u);
        assert((s + t).last() == t.last());
        let ps = split_on(s, sep);
        let q = split_on(s + u, sep);
        assert(q.len() == ps.len());
        assert(split_on(s + t, sep) =~= ps.update(ps.len() - 1, ps.last() + t)) by {
            assert(q.last() == ps.last() + u);
            assert(q.last().push(t.last()) =~= ps.last() + t);
        }
    }
}

/// Pushing a plain name (non-empty, no separator, not `.`) onto a path adds
/// exactly that name as its last component.
pub proof fn law_push_adds_component(base: Seq<char>, name: Seq<char>)
    requires
        name.len() > 0,
        !name.contains('/'),
        name != seq!['.'],
    ensures
        path_components(path_push(base, name)) == path_components(base).push(name),
        path_starts_with(path_push(base, name), base),
{
    assert forall|j: int| 0 <= j < name.len() implies name[j] != '/' by {
        if name[j] == '/' {
            assert(name.contains('/'));
        }
    }
    let p = path_push(base, name);
    assert(!(name.len() > 0 && name[0] == '/'));
    lemma_split_on_nonempty(base, '/');
    let pb = split_on(base, '/');
    if base.len() == 0 {
        assert(p =~= name);
        crate::webdav_lock::lemma_single_piece(name, '/');
        assert(split_on(name, '/') =~= seq![name]);
        assert(seq![name].drop_last() =~= Seq::<Seq<char>>::empty());
        assert(named_pieces(Seq::<Seq<char>>::empty()) == Seq::<Seq<char>>::empty());
        assert(seq![name].last() == name);
        assert(named_pieces(seq![name]) == named_pieces(seq![name].drop_last()).push(name));
        assert(named_pieces(seq![name]) =~= seq![name]);
        assert(pb =~= seq![Seq::<char>::empty()]);
        assert(seq![Seq::<char>::empty()].drop_last() =~= Seq::<Seq<char>>::empty());
        assert(named_pieces(pb) =~= Seq::<Seq<char>>::empty());
    } else if base.last() == '/' {
        assert(p == base + name);
        lemma_split_append_plain(base, name, '/');
        assert(base.drop_last().push('/') =~= base);
        lemma_split_on_nonempty(base.drop_last(), '/');
        assert(pb == split_on(base.drop_last(), '/').push(Seq::<char>::empty()));
        let pp = split_on(p, '/');
        assert(pp =~= pb.drop_last().push(name)) by {
            assert(pb.last() + name =~= name);
        }
        assert(pp.drop_last() =~= pb.drop_last());
        assert(named_pieces(pp) == named_pieces(pb.drop_last()).push(name));
        assert(named_pieces(pb) == named_pieces(pb.drop_last()));
        assert(pp[0] == pb[0]);
        assert(p[0] == base[0]);
    } else {
        assert(p == base.push('/') + name);
        lemma_split_append_plain(base.push('/'), name, '/');
        assert(base.push('/').drop_last() =~= base);
        let pq = split_on(base.push('/'), '/');
        assert(pq == pb.push(Seq::<char>::empty()));
        let pp = split_on(p, '/');
        assert(pp =~= pb.push(name)) by {
            assert(pq.last() + name =~= name);
        }
        assert(pp.drop_last() =~= pb);
        assert(named_pieces(pp) == named_pieces(pb).push(name));
        assert(pp[0] == pb[0]);
        assert(p[0] == base[0]);
    }
    let cb = path_components(base);
    let cp = path_components(p);
    assert(cp =~= cb.push(name));
    assert(cb.is_prefix_of(cp)) by {
        assert(cp.take(cb.len() as int) =~= cb);
    }
}

} // verus!
