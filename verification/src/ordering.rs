//! Lexicographic order on text (the order `String`'s `Ord` gives: UTF-8
//! byte order, which is code-point order) and a stable sort by a text key.

use vstd::prelude::*;
use crate::text::str_chars;

verus! {

/// `a <= b` in lexicographic code-point order.
pub open spec fn lex_le(a: Seq<char>, b: Seq<char>) -> bool
    decreases a.len(),
{
    if a.len() == 0 {
        true
    } else if b.len() == 0 {
        false
    } else if (a[0] as u32) != (b[0] as u32) {
        (a[0] as u32) < (b[0] as u32)
    } else {
        lex_le(a.drop_first(), b.drop_first())
    }
}

pub proof fn lemma_lex_total(a: Seq<char>, b: Seq<char>)
    ensures
        lex_le(a, b) || lex_le(b, a),
    decreases a.len(),
{
    if a.len() > 0 && b.len() > 0 && (a[0] as u32) == (b[0] as u32) {
        lemma_lex_total(a.drop_first(), b.drop_first());
    }
}

pub proof fn lemma_lex_trans(a: Seq<char>, b: Seq<char>, c: Seq<char>)
    requires
        lex_le(a, b),
        lex_le(b, c),
    ensures
        lex_le(a, c),
    decreases a.len(),
{
    if a.len() > 0 && b.len() > 0 && c.len() > 0 && (a[0] as u32) == (b[0] as u32) && (b[0] as u32)
        == (c[0] as u32) {
        lemma_lex_trans(a.drop_first(), b.drop_first(), c.drop_first());
    }
}

/// `a <= b` lexicographically, on strings.
pub fn text_le(a: &String, b: &String) -> (r: bool)
    ensures
        r == lex_le(a@, b@),
{
    let x = str_chars(a.as_str());
    let y = str_chars(b.as_str());
    let mut i: usize = 0;
    assert(x@.skip(0) =~= x@);
    assert(y@.skip(0) =~= y@);
    while i < x.len() && i < y.len() && (x[i] as u32) == (y[i] as u32)
        invariant
            i <= x@.len(),
            i <= y@.len(),
            lex_le(x@, y@) == lex_le(x@.skip(i as int), y@.skip(i as int)),
        decreases x@.len() - i,
    {
        proof {
            assert(x@.skip(i as int).drop_first() =~= x@.skip(i + 1));
            assert(y@.skip(i as int).drop_first() =~= y@.skip(i + 1));
        }
        i += 1;
    }
    if i == x.len() {
        true
    } else if i == y.len() {
        false
    } else {
        (x[i] as u32) < (y[i] as u32)
    }
}

/// Values ordered by a key made of a small rank, then a text.
pub trait TextKeyed: Sized {
    spec fn rank(&self) -> u8;

    spec fn key(&self) -> Seq<char>;

    fn key_rank(&self) -> (r: u8)
        ensures
            r == self.rank(),
    ;

    fn key_text(&self) -> (r: &String)
        ensures
            r@ == self.key(),
    ;
}

impl TextKeyed for String {
    open spec fn rank(&self) -> u8 {
        0
    }

    open spec fn key(&self) -> Seq<char> {
        self@
    }

    fn key_rank(&self) -> (r: u8) {
        0
    }

    fn key_text(&self) -> (r: &String) {
        self
    }
}

/// `a` comes no later than `b`: lower rank first, then by text.
pub open spec fn key_le<T: TextKeyed>(a: T, b: T) -> bool {
    a.rank() < b.rank() || (a.rank() == b.rank() && lex_le(a.key(), b.key()))
}

pub proof fn lemma_key_total<T: TextKeyed>(a: T, b: T)
    ensures
        key_le(a, b) || key_le(b, a),
{
    lemma_lex_total(a.key(), b.key());
}

pub proof fn lemma_key_trans<T: TextKeyed>(a: T, b: T, c: T)
    requires
        key_le(a, b),
        key_le(b, c),
    ensures
        key_le(a, c),
{
    if a.rank() == b.rank() && b.rank() == c.rank() {
        lemma_lex_trans(a.key(), b.key(), c.key());
    }
}

fn key_le_exec<T: TextKeyed>(a: &T, b: &T) -> (r: bool)
    ensures
        r == key_le(*a, *b),
{
    let ra = a.key_rank();
    let rb = b.key_rank();
    if ra < rb {
        true
    } else if ra == rb {
        text_le(a.key_text(), b.key_text())
    } else {
        false
    }
}

/// Sorted by the key, in non-decreasing order.
pub open spec fn sorted_by_key<T: TextKeyed>(s: Seq<T>) -> bool {
    forall|i: int, j: int| 0 <= i < j < s.len() ==> key_le(#[trigger] s[i], #[trigger] s[j])
}

/// Stable insertion sort by the key; the result is a permutation.
pub fn sort_by_key<T: TextKeyed>(v: Vec<T>) -> (r: Vec<T>)
    ensures
        sorted_by_key(r@),
        r@.to_multiset() == v@.to_multiset(),
{
    let ghost orig = v@;
    let mut rest = v;
    let mut r: Vec<T> = Vec::new();
    let n = rest.len();
    let mut done: usize = 0;
    proof {
        assert(rest@ =~= orig.subrange(0, n as int));
        assert(orig.subrange(0, 0) =~= Seq::<T>::empty());
    }
    while rest.len() > 0
        invariant
            rest@ == orig.subrange(done as int, n as int),
            n == orig.len(),
            done <= n,
            rest@.len() + done == n,
            sorted_by_key(r@),
            r@.to_multiset() == orig.subrange(0, done as int).to_multiset(),
        decreases rest@.len(),
    {
        let x = rest.remove(0);
        proof {
            assert(x == orig[done as int]);
        }
        let mut p: usize = 0;
        while p < r.len() && key_le_exec(&r[p], &x)
            invariant
                p <= r@.len(),
                forall|k: int| 0 <= k < p ==> key_le(#[trigger] r@[k], x),
            decreases r@.len() - p,
        {
            p += 1;
        }
        let ghost before = r@;
        proof {
            if p < r@.len() {
                lemma_key_total(r@[p as int], x);
                assert forall|k: int| p <= k < r@.len() implies key_le(x, #[trigger] r@[k]) by {
                    if k > p {
                        lemma_key_trans(x, r@[p as int], r@[k]);
                    }
                }
            }
        }
        r.insert(p, x);
        proof {
            assert(r@ =~= before.insert(p as int, x));
            before.insert_ensures(p as int, x);
            assert forall|i: int, j: int| 0 <= i < j < r@.len() implies key_le(
                #[trigger] r@[i],
                #[trigger] r@[j],
            ) by {
                if j < p {
                    assert(r@[i] == before[i] && r@[j] == before[j]);
                } else if j == p {
                    assert(r@[i] == before[i]);
                } else if i < p {
                    assert(r@[i] == before[i] && r@[j] == before[j - 1]);
                    assert(key_le(before[i], x));
                    assert(key_le(x, before[j - 1]));
                    lemma_key_trans(before[i], x, before[j - 1]);
                } else if i == p {
                    assert(r@[j] == before[j - 1]);
                } else {
                    assert(r@[i] == before[i - 1] && r@[j] == before[j - 1]);
                }
            }
            assert(orig.subrange(0, done + 1) =~= orig.subrange(0, done as int).push(x));
            vstd::seq_lib::lemma_multiset_commutative(orig.subrange(0, done as int), seq![x]);
            assert(orig.subrange(0, done as int).push(x) =~= orig.subrange(0, done as int) + seq![x]);
            before.insert_ensures(p as int, x);
            assert(r@.to_multiset() =~= before.to_multiset().insert(x)) by {
                lemma_insert_multiset(before, p as int, x);
            }
            assert(seq![x].to_multiset() =~= vstd::multiset::Multiset::singleton(x)) by {
                broadcast use vstd::seq_lib::group_to_multiset_ensures;
                assert(seq![x] =~= Seq::<T>::empty().push(x));
            }
        }
        done += 1;
    }
    proof {
        assert(orig.subrange(0, n as int) =~= orig);
    }
    r
}

pub proof fn lemma_insert_multiset<A>(s: Seq<A>, p: int, x: A)
    requires
        0 <= p <= s.len(),
    ensures
        s.insert(p, x).to_multiset() == s.to_multiset().insert(x),
{
    broadcast use vstd::seq_lib::group_to_multiset_ensures;
    let left = s.subrange(0, p);
    let right = s.subrange(p, s.len() as int);
    assert(s =~= left + right);
    assert(s.insert(p, x) =~= left.push(x) + right);
    vstd::seq_lib::lemma_multiset_commutative(left, right);
    vstd::seq_lib::lemma_multiset_commutative(left.push(x), right);
}

} // verus!
