//! The planning side of the content-index drain: which queue rows a batch
//! consumes, which files to (re)index or drop, and how stored previews are
//! cut.

use vstd::prelude::*;
use vstd::string::StringSliceAdditionalSpecFns;
use vstd::utf8::{encode_utf8, is_char_boundary};

verus! {

/// Queue rows drained per batch.
pub const DRAIN_BATCH: i64 = 256;

/// Batches drained per tick at most.
pub const MAX_BATCHES_PER_TICK: u32 = 4;

/// Stored preview head per document (16 KiB).
pub const PREVIEW_BYTES: usize = 16_384;

/// Ticks between sweeps of orphaned extraction rows.
pub const ORPHAN_SWEEP_TICKS: u64 = 2400;

/// The shortest drain cadence accepted (milliseconds).
pub const MIN_INTERVAL_MS: u64 = 200;

/// `s` cut to at most `max_bytes` bytes, backing off to a character
/// boundary.
pub fn truncate_on_char(s: &str, max_bytes: usize) -> (r: String)
    ensures
        s.spec_bytes().len() <= max_bytes ==> r@ == s@,
        s.spec_bytes().len() > max_bytes ==> exists|e: int|
            0 <= e <= max_bytes && is_char_boundary(s.spec_bytes(), e) && encode_utf8(r@)
                == s.spec_bytes().subrange(0, e) && forall|f: int|
                e < f <= max_bytes ==> !#[trigger] is_char_boundary(s.spec_bytes(), f),
{
    let byte_len = s.as_bytes().len();
    if byte_len <= max_bytes {
        return s.to_owned();
    }
    let mut end = max_bytes;
    while end > 0 && !s.is_char_boundary(end)
        invariant
            end <= max_bytes,
            max_bytes < s.spec_bytes().len(),
            forall|f: int| end < f <= max_bytes ==> !#[trigger] is_char_boundary(s.spec_bytes(), f),
        decreases end,
    {
        end -= 1;
    }
    proof {
        vstd::utf8::encode_utf8_valid_utf8(s@);
        vstd::utf8::is_char_boundary_start_end_of_seq(s.spec_bytes());
    }
    let (head, _) = s.split_at(end);
    head.to_owned()
}

/// Which queue-row ids a drain consumed, and per file the latest queued op:
/// files whose latest op is an upsert, and files whose latest op is a delete.
#[derive(Debug, Clone)]
pub struct DrainPlan {
    pub drained_ids: Vec<i64>,
    pub upserts: Vec<u128>,
    pub deletes: Vec<u128>,
}

/// The op of the last row (in queue order) concerning `file`; `true` is an
/// upsert.
pub open spec fn latest_op(rows: Seq<(i64, u128, bool)>, file: u128) -> Option<bool>
    decreases rows.len(),
{
    if rows.len() == 0 {
        None
    } else if rows.last().1 == file {
        Some(rows.last().2)
    } else {
        latest_op(rows.drop_last(), file)
    }
}

fn position_of(v: &Vec<u128>, x: u128) -> (r: Option<usize>)
    ensures
        r matches Some(i) ==> i < v@.len() && v@[i as int] == x,
        r is None ==> !v@.contains(x),
{
    let mut i: usize = 0;
    while i < v.len()
        invariant
            i <= v@.len(),
            forall|j: int| 0 <= j < i ==> v@[j] != x,
        decreases v@.len() - i,
    {
        if v[i] == x {
            return Some(i);
        }
        i += 1;
    }
    None
}

/// Plan one drained batch of `(id, file_id, is_upsert)` queue rows (in id
/// order): the latest op per file wins.
pub fn plan_drain(rows: &Vec<(i64, u128, bool)>) -> (p: DrainPlan)
    ensures
        p.drained_ids@ == rows@.map_values(|r: (i64, u128, bool)| r.0),
        p.upserts@.no_duplicates(),
        p.deletes@.no_duplicates(),
        forall|f: u128| #[trigger] p.upserts@.contains(f) <==> latest_op(rows@, f) == Some(true),
        forall|f: u128| #[trigger] p.deletes@.contains(f) <==> latest_op(rows@, f) == Some(false),
{
    let mut ids: Vec<i64> = Vec::new();
    let mut files: Vec<u128> = Vec::new();
    let mut ops: Vec<bool> = Vec::new();
    let mut i: usize = 0;
    while i < rows.len()
        invariant
            i <= rows@.len(),
            ids@ == rows@.take(i as int).map_values(|r: (i64, u128, bool)| r.0),
            files@.len() == ops@.len(),
            files@.no_duplicates(),
            forall|f: u128| #[trigger] files@.contains(f) <==> latest_op(rows@.take(i as int), f) is Some,
            forall|k: int| 0 <= k < files@.len() ==> latest_op(rows@.take(i as int), #[trigger] files@[k]) == Some(ops@[k]),
        decreases rows@.len() - i,
    {
        let (id, file, upsert) = rows[i];
        let ghost pre = rows@.take(i as int);
        let ghost post = rows@.take(i + 1);
        proof {
            assert(post.drop_last() =~= pre);
            assert(post.last() == rows@[i as int]);
            assert(forall|f: u128| latest_op(post, f) == if f == file { Some(upsert) } else { latest_op(pre, f) });
        }
        ids.push(id);
        assert(ids@ =~= post.map_values(|r: (i64, u128, bool)| r.0));
        match position_of(&files, file) {
            Some(k) => {
                ops.set(k, upsert);
            },
            None => {
                let ghost before = files@;
                files.push(file);
                ops.push(upsert);
                proof {
                    assert forall|a: int, b: int| 0 <= a < b < files@.len() implies files@[a] != files@[b] by {
                        if b == files@.len() - 1 {
                            assert(files@[a] == before[a]);
                        }
                    }
                    assert forall|f: u128| #[trigger] files@.contains(f) <==> latest_op(post, f) is Some by {
                        if files@.contains(f) && f != file {
                            let j = choose|j: int| 0 <= j < files@.len() && files@[j] == f;
                            assert(before[j] == f);
                        }
                        if f == file {
                            assert(files@[files@.len() - 1] == f);
                        } else if latest_op(post, f) is Some {
                            assert(before.contains(f));
                            let j = choose|j: int| 0 <= j < before.len() && before[j] == f;
                            assert(files@[j] == f);
                        }
                    }
                }
            },
        }
        i += 1;
    }
    assert(rows@.take(i as int) =~= rows@);
    let mut upserts: Vec<u128> = Vec::new();
    let mut deletes: Vec<u128> = Vec::new();
    let mut k: usize = 0;
    while k < files.len()
        invariant
            k <= files@.len(),
            files@.len() == ops@.len(),
            files@.no_duplicates(),
            forall|f: u128| #[trigger] files@.contains(f) <==> latest_op(rows@, f) is Some,
            forall|j: int| 0 <= j < files@.len() ==> latest_op(rows@, #[trigger] files@[j]) == Some(ops@[j]),
            upserts@.no_duplicates(),
            deletes@.no_duplicates(),
            forall|f: u128| #[trigger] upserts@.contains(f) <==> exists|j: int| 0 <= j < k && files@[j] == f && ops@[j],
            forall|f: u128| #[trigger] deletes@.contains(f) <==> exists|j: int| 0 <= j < k && files@[j] == f && !ops@[j],
        decreases files@.len() - k,
    {
        let f = files[k];
        let ghost (u0, d0) = (upserts@, deletes@);
        if ops[k] {
            upserts.push(f);
            proof {
                assert forall|a: int, b: int| 0 <= a < b < upserts@.len() implies upserts@[a] != upserts@[b] by {
                    if b == upserts@.len() - 1 {
                        assert(u0.contains(upserts@[a]));
                    }
                }
                assert forall|g: u128| #[trigger] upserts@.contains(g) <==> exists|j: int| 0 <= j < k + 1 && files@[j] == g && ops@[j] by {
                    if upserts@.contains(g) && g != f {
                        let j = choose|j: int| 0 <= j < upserts@.len() && upserts@[j] == g;
                        assert(u0[j] == g);
                        assert(u0.contains(g));
                    }
                    if g == f {
                        assert(upserts@[upserts@.len() - 1] == g);
                    } else if exists|j: int| 0 <= j < k + 1 && files@[j] == g && ops@[j] {
                        let j = choose|j: int| 0 <= j < k + 1 && files@[j] == g && ops@[j];
                        assert(j < k);
                        assert(u0.contains(g));
                        let m = choose|m: int| 0 <= m < u0.len() && u0[m] == g;
                        assert(upserts@[m] == g);
                    }
                }
            }
        } else {
            deletes.push(f);
            proof {
                assert forall|a: int, b: int| 0 <= a < b < deletes@.len() implies deletes@[a] != deletes@[b] by {
                    if b == deletes@.len() - 1 {
                        assert(d0.contains(deletes@[a]));
                    }
                }
                assert forall|g: u128| #[trigger] deletes@.contains(g) <==> exists|j: int| 0 <= j < k + 1 && files@[j] == g && !ops@[j] by {
                    if deletes@.contains(g) && g != f {
                        let j = choose|j: int| 0 <= j < deletes@.len() && deletes@[j] == g;
                        assert(d0[j] == g);
                        assert(d0.contains(g));
                    }
                    if g == f {
                        assert(deletes@[deletes@.len() - 1] == g);
                    } else if exists|j: int| 0 <= j < k + 1 && files@[j] == g && !ops@[j] {
                        let j = choose|j: int| 0 <= j < k + 1 && files@[j] == g && !ops@[j];
                        assert(j < k);
                        assert(d0.contains(g));
                        let m = choose|m: int| 0 <= m < d0.len() && d0[m] == g;
                        assert(deletes@[m] == g);
                    }
                }
            }
        }
        k += 1;
    }
    proof {
        assert forall|f: u128| #[trigger] upserts@.contains(f) <==> latest_op(rows@, f) == Some(true) by {
            if latest_op(rows@, f) == Some(true) {
                assert(files@.contains(f));
                let j = choose|j: int| 0 <= j < files@.len() && files@[j] == f;
                assert(ops@[j]);
            }
        }
        assert forall|f: u128| #[trigger] deletes@.contains(f) <==> latest_op(rows@, f) == Some(false) by {
            if latest_op(rows@, f) == Some(false) {
                assert(files@.contains(f));
                let j = choose|j: int| 0 <= j < files@.len() && files@[j] == f;
                assert(!ops@[j]);
            }
        }
    }
    DrainPlan { drained_ids: ids, upserts, deletes }
}

/// The files to drop from the index, each once: the planned deletes, plus
/// the upsert candidates that no longer exist (or are trashed) in the file
/// table.
pub fn final_deletes(deletes: &Vec<u128>, upserts: &Vec<u128>, found: &Vec<u128>) -> (r: Vec<u128>)
    ensures
        r@.no_duplicates(),
        forall|f: u128| #[trigger] r@.contains(f) <==> (deletes@.contains(f) || (upserts@.contains(f)
            && !found@.contains(f))),
{
    let mut r: Vec<u128> = Vec::new();
    let mut i: usize = 0;
    while i < deletes.len()
        invariant
            i <= deletes@.len(),
            r@.no_duplicates(),
            forall|f: u128| #[trigger] r@.contains(f) <==> exists|j: int| 0 <= j < i && deletes@[j] == f,
        decreases deletes@.len() - i,
    {
        let f = deletes[i];
        let ghost before = r@;
        if position_of(&r, f).is_none() {
            r.push(f);
            proof {
                assert forall|a: int, b: int| 0 <= a < b < r@.len() implies r@[a] != r@[b] by {
                    if b == r@.len() - 1 {
                        assert(before.contains(before[a]));
                    }
                }
            }
        }
        proof {
            assert forall|g: u128| #[trigger] r@.contains(g) <==> exists|j: int| 0 <= j < i + 1 && deletes@[j] == g by {
                if r@.contains(g) && g != f {
                    let j = choose|j: int| 0 <= j < r@.len() && r@[j] == g;
                    assert(j < before.len() && before[j] == g);
                    assert(before.contains(g));
                }
                if g == f {
                    if before.contains(g) {
                        let m = choose|m: int| 0 <= m < before.len() && before[m] == g;
                        assert(r@[m] == g);
                    } else {
                        assert(r@[r@.len() - 1] == g);
                    }
                } else if exists|j: int| 0 <= j < i + 1 && deletes@[j] == g {
                    assert(before.contains(g));
                    let m = choose|m: int| 0 <= m < before.len() && before[m] == g;
                    assert(r@[m] == g);
                }
            }
        }
        i += 1;
    }
    let mut k: usize = 0;
    while k < upserts.len()
        invariant
            k <= upserts@.len(),
            r@.no_duplicates(),
            forall|f: u128| #[trigger] r@.contains(f) <==> (deletes@.contains(f) || exists|j: int|
                0 <= j < k && upserts@[j] == f && !found@.contains(f)),
        decreases upserts@.len() - k,
    {
        let f = upserts[k];
        let ghost before = r@;
        if position_of(found, f).is_none() && position_of(&r, f).is_none() {
            r.push(f);
            proof {
                assert forall|a: int, b: int| 0 <= a < b < r@.len() implies r@[a] != r@[b] by {
                    if b == r@.len() - 1 {
                        assert(before.contains(before[a]));
                    }
                }
            }
        }
        proof {
            assert forall|g: u128| #[trigger] r@.contains(g) <==> (deletes@.contains(g) || exists|j: int|
                0 <= j < k + 1 && upserts@[j] == g && !found@.contains(g)) by {
                if r@.contains(g) && !before.contains(g) {
                    let j = choose|j: int| 0 <= j < r@.len() && r@[j] == g;
                    if j < before.len() {
                        assert(before[j] == g);
                    }
                    assert(g == f);
                    assert(upserts@[k as int] == g);
                }
                if before.contains(g) {
                    let m = choose|m: int| 0 <= m < before.len() && before[m] == g;
                    assert(r@[m] == g);
                }
                if g == f && !found@.contains(g) && !before.contains(g) {
                    assert(r@[r@.len() - 1] == g);
                }
            }
        }
        k += 1;
    }
    proof {
        assert forall|f: u128| #[trigger] r@.contains(f) <==> (deletes@.contains(f) || (upserts@.contains(f)
            && !found@.contains(f))) by {
            if upserts@.contains(f) && !found@.contains(f) {
                let j = choose|j: int| 0 <= j < upserts@.len() && upserts@[j] == f;
            }
        }
    }
    r
}

/// Whether another batch is drained in the same tick, after a drain that
/// consumed `drained` rows (`None`: the drain failed).
pub fn keep_draining(drained: Option<usize>) -> (b: bool)
    ensures
        b == match drained {
            Some(n) => n > 0 && n >= DRAIN_BATCH,
            None => false,
        },
{
    match drained {
        Some(n) => n > 0 && n >= 256,
        None => false,
    }
}

/// Whether tick number `ticks` runs the orphan-text sweep.
pub fn sweep_due(ticks: u64) -> (b: bool)
    ensures
        b == (ticks % ORPHAN_SWEEP_TICKS == 0),
{
    ticks % ORPHAN_SWEEP_TICKS == 0
}

/// The drain cadence: the configured interval, floored.
pub fn drain_interval_ms(interval_ms: u64) -> (r: u64)
    ensures
        r == if interval_ms >= MIN_INTERVAL_MS { interval_ms } else { MIN_INTERVAL_MS },
{
    if interval_ms >= MIN_INTERVAL_MS { interval_ms } else { MIN_INTERVAL_MS }
}

/// The text a cached extraction row yields: the text (empty when absent)
/// for a successful extraction, nothing otherwise.
pub fn cached_text(text: Option<String>, status: &str) -> (r: Option<String>)
    ensures
        status@ == "ok"@ ==> (r matches Some(t) && t@ == match text {
            Some(x) => x@,
            None => Seq::<char>::empty(),
        }),
        status@ != "ok"@ ==> r is None,
{
    let sv = crate::text::str_chars(status);
    let ok = crate::text::str_chars("ok");
    if crate::text::chars_equal(&sv, &ok) {
        match text {
            Some(t) => Some(t),
            None => Some(String::new()),
        }
    } else {
        None
    }
}

/// The stored preview of a document's text: its head, cut on a character
/// boundary at [`PREVIEW_BYTES`].
pub fn preview_of(content: Option<&str>) -> (r: Option<String>)
    ensures
        content is None <==> r is None,
        r matches Some(p) ==> (content matches Some(c) && (c.spec_bytes().len() <= PREVIEW_BYTES ==> p@ == c@)
            && (c.spec_bytes().len() > PREVIEW_BYTES ==> exists|e: int|
                0 <= e <= PREVIEW_BYTES && is_char_boundary(c.spec_bytes(), e) && encode_utf8(p@)
                    == c.spec_bytes().subrange(0, e) && forall|f: int|
                    e < f <= PREVIEW_BYTES ==> !#[trigger] is_char_boundary(c.spec_bytes(), f))),
{
    match content {
        Some(c) => Some(truncate_on_char(c, PREVIEW_BYTES)),
        None => None,
    }
}

/// Rows a drain reports as consumed: all of them once the index applied the
/// batch, none when it failed (the queue rows stay for the next tick).
pub fn drained_count(applied: bool, rows: usize) -> (n: usize)
    ensures
        n == if applied { rows } else { 0 },
{
    if applied {
        rows
    } else {
        0
    }
}

/// The latest queued op of a file is the one of its last row: a row
/// appended for the file decides it, and a row for another file leaves it
/// unchanged.
pub proof fn law_last_row_wins(rows: Seq<(i64, u128, bool)>, row: (i64, u128, bool), file: u128)
    ensures
        latest_op(rows.push(row), row.1) == Some(row.2),
        file != row.1 ==> latest_op(rows.push(row), file) == latest_op(rows, file),
{
    assert(rows.push(row).drop_last() =~= rows);
}

} // verus!
