//! Sequence vocabulary shared by the contracts of the library.

use vstd::prelude::*;

verus! {

/// The views of a sequence of strings.
pub open spec fn string_views(v: Seq<String>) -> Seq<Seq<char>> {
    v.map_values(|s: String| s@)
}

/// The elements of `s` in order of first appearance, each once.
pub open spec fn first_occurrences<A>(s: Seq<A>) -> Seq<A>
    decreases s.len(),
{
    if s.len() == 0 {
        Seq::empty()
    } else {
        let p = first_occurrences(s.drop_last());
        if p.contains(s.last()) {
            p
        } else {
            p.push(s.last())
        }
    }
}

/// All byte sequences of `s`, concatenated in order.
pub open spec fn concat_all(s: Seq<Seq<u8>>) -> Seq<u8>
    decreases s.len(),
{
    if s.len() == 0 {
        Seq::empty()
    } else {
        concat_all(s.drop_last()) + s.last()
    }
}

/// The sum of a sequence of unsigned numbers.
pub open spec fn sum_u64(s: Seq<u64>) -> int
    decreases s.len(),
{
    if s.len() == 0 {
        0
    } else {
        sum_u64(s.drop_last()) + s.last()
    }
}

pub proof fn lemma_contains_drop_last<A>(s: Seq<A>, x: A)
    requires
        s.len() > 0,
    ensures
        s.contains(x) <==> (s.drop_last().contains(x) || x == s.last()),
{
    if s.contains(x) {
        let i = choose|i: int| 0 <= i < s.len() && s[i] == x;
        if i < s.len() - 1 {
            assert(s.drop_last()[i] == x);
        }
    }
    if s.drop_last().contains(x) {
        let i = choose|i: int| 0 <= i < s.len() - 1 && s.drop_last()[i] == x;
        assert(s[i] == x);
    }
    if x == s.last() {
        assert(s[s.len() - 1] == x);
    }
}

/// Keeping first occurrences yields no repeats and loses no element.
pub proof fn lemma_first_occurrences<A>(s: Seq<A>)
    ensures
        first_occurrences(s).no_duplicates(),
        forall|x: A| #[trigger] first_occurrences(s).contains(x) <==> s.contains(x),
        first_occurrences(s).len() <= s.len(),
    decreases s.len(),
{
    if s.len() > 0 {
        lemma_first_occurrences(s.drop_last());
        let p = first_occurrences(s.drop_last());
        assert forall|x: A| #[trigger] first_occurrences(s).contains(x) <==> s.contains(x) by {
            lemma_contains_drop_last(s, x);
            if !p.contains(s.last()) {
                lemma_contains_drop_last(p.push(s.last()), x);
                assert(p.push(s.last()).drop_last() =~= p);
            }
        }
        if !p.contains(s.last()) {
            let q = p.push(s.last());
            assert forall|i: int, j: int| 0 <= i < q.len() && 0 <= j < q.len() && i != j implies q[i]
                != q[j] by {
                if i < p.len() && j < p.len() {
                } else if i == p.len() {
                    assert(q[j] == p[j]);
                } else {
                    assert(q[i] == p[i]);
                }
            }
        }
    }
}

/// The concatenation of chunks extends by exactly the appended chunk.
pub proof fn lemma_concat_all_push(s: Seq<Seq<u8>>, x: Seq<u8>)
    ensures
        concat_all(s.push(x)) == concat_all(s) + x,
{
    assert(s.push(x).drop_last() =~= s);
}

/// Whether some string of `v` has the same text as `s`.
pub fn contains_string(v: &Vec<String>, s: &String) -> (b: bool)
    ensures
        b == string_views(v@).contains(s@),
{
    let mut i: usize = 0;
    while i < v.len()
        invariant
            i <= v.len(),
            forall|j: int| 0 <= j < i ==> v@[j]@ != s@,
        decreases v.len() - i,
    {
        if v[i] == *s {
            assert(string_views(v@)[i as int] == s@);
            return true;
        }
        i += 1;
    }
    proof {
        if string_views(v@).contains(s@) {
            let j = choose|j: int| 0 <= j < string_views(v@).len() && string_views(v@)[j] == s@;
            assert(v@[j]@ == s@);
        }
    }
    false
}

/// Sizes that match the chunks one by one add up to the length of the
/// concatenated chunks.
pub proof fn lemma_sum_lens(sizes: Seq<u64>, chunks: Seq<Seq<u8>>)
    requires
        sizes.len() == chunks.len(),
        forall|i: int| 0 <= i < sizes.len() ==> #[trigger] sizes[i] == chunks[i].len(),
    ensures
        sum_u64(sizes) == concat_all(chunks).len(),
    decreases sizes.len(),
{
    if sizes.len() > 0 {
        lemma_sum_lens(sizes.drop_last(), chunks.drop_last());
        assert(sizes[sizes.len() - 1] == chunks[chunks.len() - 1].len());
    }
}

} // verus!
