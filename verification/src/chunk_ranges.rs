//! Byte-range reads over a chunked (manifest) blob: which chunks overlap a
//! requested range, and which part of each to read.

use vstd::prelude::*;
use crate::seq_facts::concat_all;

verus! {

/// A chunk size as the reader takes it, converted with `as u64`: a
/// negative size wraps around to a huge one.
pub open spec fn size_u64(x: i64) -> int {
    if x >= 0 {
        x as int
    } else {
        x as int + 0x1_0000_0000_0000_0000
    }
}

proof fn lemma_size_u64(x: i64)
    ensures
        (x as u64) as int == size_u64(x),
{
    assert(x < 0 ==> (x as u64) as int == x as int + 0x1_0000_0000_0000_0000) by (bit_vector);
}

/// Offset of chunk `i` within the file: the sum of the sizes before it.
pub open spec fn chunk_offset(sizes: Seq<i64>, i: int) -> int
    decreases i,
{
    if i <= 0 || i > sizes.len() {
        0
    } else {
        chunk_offset(sizes, i - 1) + size_u64(sizes[i - 1])
    }
}

/// The reader's running offset never overflows: each chunk it reaches (the
/// first, and every later one that starts before `end`) ends within `u64`.
pub open spec fn scan_fits(sizes: Seq<i64>, end: int) -> bool {
    forall|i: int|
        0 <= i < sizes.len() && (i == 0 || chunk_offset(sizes, i) < end) ==> #[trigger] chunk_offset(
            sizes,
            i + 1,
        ) <= u64::MAX
}

/// Every chunk size is non-negative.
pub open spec fn sizes_nonneg(sizes: Seq<i64>) -> bool {
    forall|i: int| 0 <= i < sizes.len() ==> sizes[i] >= 0
}

/// Chunk `i` overlaps the half-open byte range `[start, end)`.
pub open spec fn overlaps(sizes: Seq<i64>, start: int, end: int, i: int) -> bool {
    chunk_offset(sizes, i + 1) > start && chunk_offset(sizes, i) < end
}

/// The part of chunk `i` to read for `[start, end)`: from `start` relative to
/// the chunk (0 when the range began earlier) to `end` relative to the chunk,
/// or to the chunk's end (`None`) when the range continues past it.
pub open spec fn local_range(sizes: Seq<i64>, start: int, end: int, i: int) -> (int, Option<int>) {
    let off = chunk_offset(sizes, i);
    (
        if start > off { start - off } else { 0 },
        if chunk_offset(sizes, i + 1) > end { Some(end - off) } else { None },
    )
}

/// `r` lists, in chunk order, exactly the chunks overlapping `[start, end)`
/// with their local ranges.
pub open spec fn is_range_plan(sizes: Seq<i64>, start: int, end: int, r: Seq<(usize, u64, Option<u64>)>) -> bool {
    &&& forall|k: int|
        0 <= k < r.len() ==> {
            let (i, a, b) = #[trigger] r[k];
            &&& i < sizes.len()
            &&& overlaps(sizes, start, end, i as int)
            &&& a as int == local_range(sizes, start, end, i as int).0
            &&& match b {
                Some(x) => local_range(sizes, start, end, i as int).1 == Some(x as int),
                None => local_range(sizes, start, end, i as int).1 is None,
            }
        }
    &&& forall|k: int, l: int| 0 <= k < l < r.len() ==> r[k].0 < r[l].0
    &&& forall|i: int|
        0 <= i < sizes.len() && #[trigger] overlaps(sizes, start, end, i) ==> exists|k: int|
            0 <= k < r.len() && r[k].0 == i
}

/// The plan entry of chunk `i` for a read of `[start, end)`.
pub open spec fn plan_entry(sizes: Seq<i64>, start: int, end: int, i: int) -> (usize, u64, Option<u64>) {
    let lr = local_range(sizes, start, end, i);
    (
        i as usize,
        lr.0 as u64,
        match lr.1 {
            Some(x) => Some(x as u64),
            None => None,
        },
    )
}

/// The plan of a read of `[start, end)` over the first `n` chunks: the
/// overlapping chunks in order, each with its entry.
pub open spec fn plan_upto(sizes: Seq<i64>, start: int, end: int, n: int) -> Seq<(usize, u64, Option<u64>)>
    decreases n,
{
    if n <= 0 {
        Seq::empty()
    } else if overlaps(sizes, start, end, n - 1) {
        plan_upto(sizes, start, end, n - 1).push(plan_entry(sizes, start, end, n - 1))
    } else {
        plan_upto(sizes, start, end, n - 1)
    }
}

/// The bytes a plan entry reads from its chunk.
pub open spec fn piece_bytes(chunks: Seq<Seq<u8>>, e: (usize, u64, Option<u64>)) -> Seq<u8> {
    let c = chunks[e.0 as int];
    c.subrange(
        e.1 as int,
        match e.2 {
            Some(b) => b as int,
            None => c.len() as int,
        },
    )
}

/// The bytes a plan reads, concatenated in plan order.
pub open spec fn plan_bytes(chunks: Seq<Seq<u8>>, plan: Seq<(usize, u64, Option<u64>)>) -> Seq<u8>
    decreases plan.len(),
{
    if plan.len() == 0 {
        Seq::empty()
    } else {
        plan_bytes(chunks, plan.drop_last()) + piece_bytes(chunks, plan.last())
    }
}

proof fn lemma_plan_stable(sizes: Seq<i64>, start: int, end: int, i: int, n: int)
    requires
        0 <= i <= n,
        forall|j: int| i <= j < n ==> !#[trigger] overlaps(sizes, start, end, j),
    ensures
        plan_upto(sizes, start, end, n) == plan_upto(sizes, start, end, i),
    decreases n - i,
{
    if n > i {
        lemma_plan_stable(sizes, start, end, i, n - 1);
    }
}

pub proof fn lemma_offset_monotone(sizes: Seq<i64>, i: int, j: int)
    requires
        0 <= i <= j <= sizes.len(),
    ensures
        chunk_offset(sizes, i) <= chunk_offset(sizes, j),
    decreases j - i,
{
    if i < j {
        lemma_offset_monotone(sizes, i, j - 1);
    }
}

/// The chunks of a manifest overlapping `[start, end)` (`end` defaults to
/// `total_size`), each with the part of it to read.
pub fn select_chunk_ranges(sizes: &Vec<i64>, total_size: i64, start: u64, end: Option<u64>) -> (r: Vec<(usize, u64, Option<u64>)>)
    requires
        scan_fits(
            sizes@,
            match end {
                Some(e) => e as int,
                None => (total_size as u64) as int,
            },
        ),
    ensures
        is_range_plan(
            sizes@,
            start as int,
            match end {
                Some(e) => e as int,
                None => (total_size as u64) as int,
            },
            r@,
        ),
        r@ == plan_upto(
            sizes@,
            start as int,
            match end {
                Some(e) => e as int,
                None => (total_size as u64) as int,
            },
            sizes@.len() as int,
        ),
{
    let end_pos: u64 = match end {
        Some(e) => e,
        None => total_size as u64,
    };
    let mut offset: u64 = 0;
    let mut r: Vec<(usize, u64, Option<u64>)> = Vec::new();
    let mut i: usize = 0;
    while i < sizes.len()
        invariant
            i <= sizes.len(),
            scan_fits(sizes@, end_pos as int),
            offset == chunk_offset(sizes@, i as int),
            i == 0 || offset < end_pos,
            end_pos == match end {
                Some(e) => e,
                None => total_size as u64,
            },
            forall|k: int|
                0 <= k < r@.len() ==> {
                    let (j, a, b) = #[trigger] r@[k];
                    &&& j < i
                    &&& overlaps(sizes@, start as int, end_pos as int, j as int)
                    &&& a as int == local_range(sizes@, start as int, end_pos as int, j as int).0
                    &&& match b {
                        Some(x) => local_range(sizes@, start as int, end_pos as int, j as int).1 == Some(
                            x as int,
                        ),
                        None => local_range(sizes@, start as int, end_pos as int, j as int).1 is None,
                    }
                },
            forall|k: int, l: int| 0 <= k < l < r@.len() ==> r@[k].0 < r@[l].0,
            forall|j: int|
                0 <= j < i && #[trigger] overlaps(sizes@, start as int, end_pos as int, j) ==> exists|k: int|
                    0 <= k < r@.len() && r@[k].0 == j,
            r@ == plan_upto(sizes@, start as int, end_pos as int, i as int),
        decreases sizes.len() - i,
    {
        proof {
            lemma_size_u64(sizes@[i as int]);
            assert(chunk_offset(sizes@, i + 1) <= u64::MAX);
        }
        let chunk_size = sizes[i] as u64;
        let chunk_end = offset + chunk_size;
        if chunk_end > start && offset < end_pos {
            let range_start = if start > offset { start - offset } else { 0 };
            let range_end = if chunk_end > end_pos { Some(end_pos - offset) } else { None };
            let ghost old_r = r@;
            r.push((i, range_start, range_end));
            proof {
                assert(r@[r@.len() - 1] == plan_entry(sizes@, start as int, end_pos as int, i as int));
                assert(r@ == plan_upto(sizes@, start as int, end_pos as int, i + 1));
                assert forall|j: int|
                    0 <= j < i + 1 && #[trigger] overlaps(sizes@, start as int, end_pos as int, j) implies exists|k: int|
                    0 <= k < r@.len() && r@[k].0 == j by {
                    if j < i {
                        let k = choose|k: int| 0 <= k < old_r.len() && old_r[k].0 == j;
                        assert(r@[k] == old_r[k]);
                    } else {
                        assert(r@[r@.len() - 1].0 == j);
                    }
                }
            }
        }
        offset = chunk_end;
        i += 1;
        if offset >= end_pos {
            proof {
                assert forall|j: int| i <= j < sizes@.len() implies !#[trigger] overlaps(sizes@, start as int, end_pos as int, j) by {
                    lemma_offset_monotone(sizes@, i as int, j);
                }
                lemma_plan_stable(sizes@, start as int, end_pos as int, i as int, sizes@.len() as int);
                assert forall|j: int|
                    0 <= j < sizes@.len() && #[trigger] overlaps(sizes@, start as int, end_pos as int, j) implies exists|k: int|
                    0 <= k < r@.len() && r@[k].0 == j by {
                    if j >= i {
                        lemma_offset_monotone(sizes@, i as int, j);
                    }
                }
                assert(is_range_plan(sizes@, start as int, end_pos as int, r@));
            }
            return r;
        }
    }
    r
}

/// The chunks' sizes, one by one.
pub open spec fn sizes_of(sizes: Seq<i64>, chunks: Seq<Seq<u8>>) -> bool {
    &&& sizes.len() == chunks.len()
    &&& forall|i: int| 0 <= i < sizes.len() ==> #[trigger] sizes[i] == chunks[i].len()
}

proof fn lemma_prefix_len(sizes: Seq<i64>, chunks: Seq<Seq<u8>>, n: int)
    requires
        sizes_of(sizes, chunks),
        0 <= n <= chunks.len(),
    ensures
        concat_all(chunks.take(n)).len() == chunk_offset(sizes, n),
    decreases n,
{
    if n > 0 {
        lemma_prefix_len(sizes, chunks, n - 1);
        assert(chunks.take(n).drop_last() =~= chunks.take(n - 1));
        assert(sizes[n - 1] == chunks[n - 1].len());
    }
}

proof fn lemma_plan_prefix_bytes(sizes: Seq<i64>, chunks: Seq<Seq<u8>>, start: int, end: int, n: int)
    requires
        sizes_of(sizes, chunks),
        sizes_nonneg(sizes),
        0 <= start <= end <= u64::MAX,
        0 <= n <= chunks.len(),
        chunks.len() <= usize::MAX,
        chunk_offset(sizes, sizes.len() as int) <= u64::MAX,
    ensures
        ({
            let o = chunk_offset(sizes, n);
            plan_bytes(chunks, plan_upto(sizes, start, end, n)) == concat_all(chunks.take(n)).subrange(
                if start < o { start } else { o },
                if end < o { end } else { o },
            )
        }),
    decreases n,
{
    if n == 0 {
        assert(concat_all(chunks.take(0)).len() == 0);
        assert(concat_all(chunks.take(0)).subrange(0, 0) =~= Seq::<u8>::empty());
    } else {
        let m = n - 1;
        lemma_plan_prefix_bytes(sizes, chunks, start, end, m);
        lemma_prefix_len(sizes, chunks, m);
        lemma_prefix_len(sizes, chunks, n);
        let o = chunk_offset(sizes, m);
        assert(sizes[m] >= 0);
        let l = sizes[m] as int;
        assert(chunk_offset(sizes, n) == o + l);
        let c = chunks[m];
        assert(c.len() == l);
        let prev = concat_all(chunks.take(m));
        assert(chunks.take(n).drop_last() =~= chunks.take(m));
        assert(chunks.take(n).last() == c);
        let all = concat_all(chunks.take(n));
        assert(all == prev + c);
        assert(prev.len() == o);
        let before = plan_bytes(chunks, plan_upto(sizes, start, end, m));
        if overlaps(sizes, start, end, m) {
            let e = plan_entry(sizes, start, end, m);
            let p = plan_upto(sizes, start, end, m);
            assert(p.push(e).drop_last() =~= p);
            assert(plan_bytes(chunks, p.push(e)) == before + piece_bytes(chunks, e));
            let a: int = if start > o { start - o } else { 0 };
            let b: int = if o + l > end { end - o } else { l };
            lemma_offset_monotone(sizes, n, sizes.len() as int);
            assert(e.0 as int == m);
            assert(e.1 as int == a);
            assert(piece_bytes(chunks, e) == c.subrange(a, b));
            let hi: int = if end < o + l { end } else { o + l };
            if start <= o {
                assert(before == prev.subrange(start, o));
                assert(all.subrange(start, hi) =~= prev.subrange(start, o) + c.subrange(0, b));
            } else {
                assert(before =~= Seq::<u8>::empty());
                assert(all.subrange(start, hi) =~= c.subrange(a, b));
            }
        } else {
            if o >= end {
                assert(all.subrange(start, end) =~= prev.subrange(start, end));
            } else {
                assert(before =~= Seq::<u8>::empty());
                assert(all.subrange(o + l, o + l) =~= Seq::<u8>::empty());
            }
        }
    }
}

/// Reading the planned piece of every selected chunk, in plan order, gives
/// exactly the requested bytes of the file: `[start, end)` clipped to the
/// file's size.
pub proof fn law_range_plan_reassembles(sizes: Seq<i64>, chunks: Seq<Seq<u8>>, start: int, end: int)
    requires
        sizes_of(sizes, chunks),
        0 <= start <= end <= u64::MAX,
        chunks.len() <= usize::MAX,
        chunk_offset(sizes, sizes.len() as int) <= u64::MAX,
    ensures
        ({
            let file = concat_all(chunks);
            plan_bytes(chunks, plan_upto(sizes, start, end, sizes.len() as int)) == file.subrange(
                if start < file.len() { start } else { file.len() as int },
                if end < file.len() { end } else { file.len() as int },
            )
        }),
{
    assert(sizes_nonneg(sizes)) by {
        assert forall|i: int| 0 <= i < sizes.len() implies sizes[i] >= 0 by {
            assert(sizes[i] == chunks[i].len());
        }
    }
    lemma_plan_prefix_bytes(sizes, chunks, start, end, sizes.len() as int);
    lemma_prefix_len(sizes, chunks, sizes.len() as int);
    assert(chunks.take(chunks.len() as int) =~= chunks);
}

} // verus!
