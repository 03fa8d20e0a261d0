//! Bookkeeping decisions of the deduplicating blob index: manifest views,
//! settlement of chunk batches, loose-chunk registration, reference release
//! after a delete, integrity findings and statistics.

use vstd::prelude::*;
use crate::hashing::{blake3_hash_hex, blake3_hex, hasher_absorbed, hasher_finalize_hex, hasher_new, hasher_update};
use crate::ingest::{batch_hashes, CDC_MAX_CHUNK};
use crate::decimal::{decimal_text, push_decimal};
use crate::text::push_text;
use crate::seq_facts::{concat_all, contains_string, first_occurrences, lemma_concat_all_push, string_views};

verus! {

/// The `(hash, size)` chunk list of a manifest row, in file order. Rows
/// whose hash and size arrays differ in length are paired up to the shorter.
#[verifier::spinoff_prover]
pub fn manifest_chunk_list(hashes: Vec<String>, sizes: Vec<i64>, total_size: i64) -> (r: (Vec<(String, u64)>, u64))
    ensures
        r.0@.len() == if hashes@.len() <= sizes@.len() { hashes@.len() } else { sizes@.len() },
        forall|k: int|
            0 <= k < r.0@.len() ==> #[trigger] r.0@[k].0@ == hashes@[k]@ && r.0@[k].1 == sizes@[k] as u64,
        r.1 == total_size as u64,
{
    let n = if hashes.len() <= sizes.len() { hashes.len() } else { sizes.len() };
    let mut out: Vec<(String, u64)> = Vec::new();
    let mut k: usize = 0;
    while k < n
        invariant
            k <= n,
            n <= hashes@.len(),
            n <= sizes@.len(),
            out@.len() == k,
            forall|j: int|
                0 <= j < k ==> #[trigger] out@[j].0@ == hashes@[j]@ && out@[j].1 == sizes@[j] as u64,
        decreases n - k,
    {
        out.push((hashes[k].clone(), sizes[k] as u64));
        k += 1;
    }
    (out, total_size as u64)
}

/// A legacy whole-file blob presented as a manifest of itself.
pub fn legacy_chunk_list(hash: &String, size: i64) -> (r: (Vec<(String, u64)>, u64))
    ensures
        r.0@.len() == 1,
        r.0@[0].0@ == hash@,
        r.0@[0].1 == size as u64,
        r.1 == size as u64,
{
    let mut v: Vec<(String, u64)> = Vec::new();
    v.push((hash.clone(), size as u64));
    (v, size as u64)
}

/// Hashes of `batch` that the index already knew (and pinned), in order.
pub open spec fn pinned_part(batch: Seq<(String, Vec<u8>)>, pinned: Seq<Seq<char>>) -> Seq<Seq<char>>
    decreases batch.len(),
{
    if batch.len() == 0 {
        Seq::empty()
    } else {
        let rest = pinned_part(batch.drop_last(), pinned);
        if pinned.contains(batch.last().0@) {
            rest.push(batch.last().0@)
        } else {
            rest
        }
    }
}

/// Chunks of `batch` the index did not know, which must be written.
pub open spec fn unknown_part(batch: Seq<(String, Vec<u8>)>, pinned: Seq<Seq<char>>) -> Seq<(String, Vec<u8>)>
    decreases batch.len(),
{
    if batch.len() == 0 {
        Seq::empty()
    } else {
        let rest = unknown_part(batch.drop_last(), pinned);
        if pinned.contains(batch.last().0@) {
            rest
        } else {
            rest.push(batch.last())
        }
    }
}

/// Split a settled batch by the set of hashes the pin statement returned:
/// the pinned hashes (recorded for rollback) and the chunks still to write.
pub fn split_pinned(batch: Vec<(String, Vec<u8>)>, pinned: &Vec<String>) -> (r: (Vec<String>, Vec<(String, Vec<u8>)>))
    ensures
        string_views(r.0@) == pinned_part(batch@, string_views(pinned@)),
        r.1@ == unknown_part(batch@, string_views(pinned@)),
{
    let ghost b = batch@;
    let ghost p = string_views(pinned@);
    let mut known: Vec<String> = Vec::new();
    let mut fresh: Vec<(String, Vec<u8>)> = Vec::new();
    let n: usize = batch.len();
    let mut rest = batch;
    let mut i: usize = 0;
    while rest.len() > 0
        invariant
            rest@.len() + i == n,
            rest@ == b.subrange(i as int, n as int),
            n == b.len(),
            string_views(known@) == pinned_part(b.take(i as int), p),
            fresh@ == unknown_part(b.take(i as int), p),
            p == string_views(pinned@),
        decreases rest@.len(),
    {
        let item = rest.remove(0);
        proof {
            assert(item == b[i as int]);
            assert(b.take(i + 1).drop_last() =~= b.take(i as int));
            assert(b.take(i + 1).last() == item);
        }
        let is_pinned = contains_string(pinned, &item.0);
        if is_pinned {
            let ghost before = known@;
            known.push(item.0);
            assert(string_views(known@) =~= string_views(before).push(item.0@));
        } else {
            fresh.push(item);
        }
        i += 1;
    }
    assert(b.take(i as int) =~= b);
    (known, fresh)
}

/// Split written `(hash, size)` rows into the parallel arrays a batched
/// registration binds.
pub fn registration_rows(written: &Vec<(String, i64)>) -> (r: (Vec<String>, Vec<i64>))
    ensures
        r.0@.len() == written@.len(),
        r.1@.len() == written@.len(),
        forall|k: int|
            0 <= k < written@.len() ==> #[trigger] r.0@[k]@ == written@[k].0@ && r.1@[k] == written@[k].1,
{
    let mut hashes: Vec<String> = Vec::new();
    let mut sizes: Vec<i64> = Vec::new();
    let mut k: usize = 0;
    while k < written.len()
        invariant
            k <= written@.len(),
            hashes@.len() == k,
            sizes@.len() == k,
            forall|j: int|
                0 <= j < k ==> #[trigger] hashes@[j]@ == written@[j].0@ && sizes@[j] == written@[j].1,
        decreases written@.len() - k,
    {
        let ghost (h_old, s_old) = (hashes@, sizes@);
        hashes.push(written[k].0.clone());
        sizes.push(written[k].1);
        assert forall|j: int| 0 <= j < k + 1 implies #[trigger] hashes@[j]@ == written@[j].0@ && sizes@[j]
            == written@[j].1 by {
            if j < k {
                assert(hashes@[j] == h_old[j]);
                assert(sizes@[j] == s_old[j]);
            }
        }
        k += 1;
    }
    (hashes, sizes)
}

/// What a loose (client-sent) chunk frame does.
#[derive(Debug)]
pub enum LooseStep {
    /// The frame exceeds the maximum chunk size; the request fails.
    TooLarge,
    /// First occurrence in this request: its bytes must be written under
    /// this hash before the next frame.
    Store(String),
    /// A repeat of an earlier frame of this request.
    Repeat,
}

/// Accounting of one loose-chunk upload request.
pub struct LooseChunkSession {
    received: Vec<(String, u64)>,
    new_rows: Vec<(String, i64)>,
    seen: Vec<String>,
    frames: Ghost<Seq<Seq<u8>>>,
}

impl LooseChunkSession {
    /// The accepted frames so far.
    pub closed spec fn frames(&self) -> Seq<Seq<u8>> {
        self.frames@
    }

    pub closed spec fn wf(&self) -> bool {
        &&& self.received@.len() == self.frames@.len()
        &&& forall|k: int|
            0 <= k < self.frames@.len() ==> #[trigger] self.received@[k].0@ == blake3_hex(
                self.frames@[k],
            ) && self.received@[k].1 == self.frames@[k].len() && self.frames@[k].len()
                <= CDC_MAX_CHUNK
        &&& string_views(self.seen@) == first_occurrences(
            self.received@.map_values(|p: (String, u64)| p.0@),
        )
        &&& self.new_rows@.map_values(|p: (String, i64)| p.0@) == string_views(self.seen@)
        &&& forall|k: int|
            0 <= k < self.new_rows@.len() ==> 0 <= #[trigger] self.new_rows@[k].1 <= CDC_MAX_CHUNK
    }

    pub fn new() -> (s: Self)
        ensures
            s.wf(),
            s.frames() == Seq::<Seq<u8>>::empty(),
    {
        let s = LooseChunkSession {
            received: Vec::new(),
            new_rows: Vec::new(),
            seen: Vec::new(),
            frames: Ghost(Seq::empty()),
        };
        assert(s.received@.map_values(|p: (String, u64)| p.0@) =~= Seq::<Seq<char>>::empty());
        assert(s.new_rows@.map_values(|p: (String, i64)| p.0@) =~= Seq::<Seq<char>>::empty());
        assert(string_views(s.seen@) =~= Seq::<Seq<char>>::empty());
        s
    }

    /// Account for the next frame.
    pub fn push_frame(&mut self, data: &[u8]) -> (step: LooseStep)
        requires
            old(self).wf(),
        ensures
            final(self).wf(),
            match step {
                LooseStep::TooLarge => data@.len() > CDC_MAX_CHUNK && final(self).frames() == old(
                    self,
                ).frames(),
                LooseStep::Store(h) => {
                    &&& data@.len() <= CDC_MAX_CHUNK
                    &&& h@ == blake3_hex(data@)
                    &&& !old(self).frames().map_values(|f: Seq<u8>| blake3_hex(f)).contains(h@)
                    &&& final(self).frames() == old(self).frames().push(data@)
                },
                LooseStep::Repeat => {
                    &&& data@.len() <= CDC_MAX_CHUNK
                    &&& old(self).frames().map_values(|f: Seq<u8>| blake3_hex(f)).contains(
                        blake3_hex(data@),
                    )
                    &&& final(self).frames() == old(self).frames().push(data@)
                },
            },
    {
        if data.len() > CDC_MAX_CHUNK {
            return LooseStep::TooLarge;
        }
        let hash = blake3_hash_hex(data);
        let len = data.len();
        let ghost old_recv = self.received@.map_values(|p: (String, u64)| p.0@);
        let ghost old_frames = self.frames@;
        proof {
            assert(old_recv =~= old_frames.map_values(|f: Seq<u8>| blake3_hex(f)));
            crate::seq_facts::lemma_first_occurrences(old_recv);
        }
        let present = contains_string(&self.seen, &hash);
        self.received.push((hash.clone(), len as u64));
        proof {
            self.frames@ = self.frames@.push(data@);
            let recv = self.received@.map_values(|p: (String, u64)| p.0@);
            assert(recv =~= old_recv.push(hash@));
            assert(recv.drop_last() =~= old_recv);
        }
        if present {
            LooseStep::Repeat
        } else {
            let ghost old_rows = self.new_rows@;
            self.seen.push(hash.clone());
            self.new_rows.push((hash.clone(), len as i64));
            proof {
                assert(self.new_rows@.map_values(|p: (String, i64)| p.0@) =~= old_rows.map_values(
                    |p: (String, i64)| p.0@,
                ).push(hash@));
                assert(string_views(self.seen@) =~= string_views(self.seen@.drop_last()).push(
                    hash@,
                ));
                assert(self.seen@.drop_last() =~= old(self).seen@);
            }
            LooseStep::Store(hash)
        }
    }

    /// The per-frame `(hash, size)` answers in input order, and the distinct
    /// new rows to register.
    pub fn finish(self) -> (r: (Vec<(String, u64)>, Vec<(String, i64)>))
        requires
            self.wf(),
        ensures
            r.0@.len() == self.frames().len(),
            forall|k: int|
                0 <= k < self.frames().len() ==> #[trigger] r.0@[k].0@ == blake3_hex(self.frames()[k])
                    && r.0@[k].1 == self.frames()[k].len(),
            r.1@.map_values(|p: (String, i64)| p.0@) == first_occurrences(
                self.frames().map_values(|f: Seq<u8>| blake3_hex(f)),
            ),
    {
        assert(self.received@.map_values(|p: (String, u64)| p.0@) =~= self.frames@.map_values(
            |f: Seq<u8>| blake3_hex(f),
        ));
        (self.received, self.new_rows)
    }
}

/// What the delete path does with a blob whose last file reference went away.
#[derive(Debug, Clone, Copy, PartialEq, Eq)]
pub enum OrphanCleanup {
    /// Last reference of a manifest: drop the manifest and release its chunks.
    RemoveManifest,
    /// A manifest still shared by other files: decrement it and undo the
    /// trigger's premature chunk decrement.
    DecrementManifest,
    /// No manifest: a legacy blob, deleted only if its own count reached 0.
    DeleteLegacyIfUnreferenced,
}

pub fn orphan_cleanup_action(manifest_ref_count: Option<i32>) -> (r: OrphanCleanup)
    ensures
        match manifest_ref_count {
            Some(rc) => if rc <= 1 {
                r is RemoveManifest
            } else {
                r is DecrementManifest
            },
            None => r is DeleteLegacyIfUnreferenced,
        },
{
    match manifest_ref_count {
        Some(rc) => if rc <= 1 {
            OrphanCleanup::RemoveManifest
        } else {
            OrphanCleanup::DecrementManifest
        },
        None => OrphanCleanup::DeleteLegacyIfUnreferenced,
    }
}

/// Outcome of one round of attaching a manifest.
#[derive(Debug, Clone, Copy, PartialEq, Eq)]
pub enum AttachOutcome {
    /// The manifest row was inserted: a new blob.
    NewBlob,
    /// The manifest existed and its count was bumped: a dedup hit of this size.
    ExistingBlob(u64),
    /// The existing manifest vanished before the bump; insert again.
    Retry,
    /// Out of rounds: release the held references and fail.
    GiveUp,
}

/// Rounds of insert-or-bump before giving up.
pub const ATTACH_ROUNDS: u32 = 3;

/// Decide a round of manifest attachment from the insert's affected rows and,
/// when nothing was inserted, the bump's result.
pub fn attach_round(round: u32, rows_inserted: u64, bumped_size: Option<i64>) -> (r: AttachOutcome)
    requires
        round < ATTACH_ROUNDS,
    ensures
        rows_inserted > 0 ==> r is NewBlob,
        rows_inserted == 0 ==> match bumped_size {
            Some(s) => r == AttachOutcome::ExistingBlob(s as u64),
            None => if round + 1 < ATTACH_ROUNDS {
                r is Retry
            } else {
                r is GiveUp
            },
        },
{
    if rows_inserted > 0 {
        AttachOutcome::NewBlob
    } else {
        match bumped_size {
            Some(s) => AttachOutcome::ExistingBlob(s as u64),
            None => if round + 1 < ATTACH_ROUNDS {
                AttachOutcome::Retry
            } else {
                AttachOutcome::GiveUp
            },
        }
    }
}

/// A structural defect of a manifest row.
#[derive(Debug, Clone, Copy, PartialEq, Eq)]
pub enum ManifestIssue {
    /// The hash and size arrays differ in length.
    LengthMismatch,
    /// The declared total differs from the sum of the chunk sizes.
    TotalMismatch { total_size: i64, sum: i64 },
}

pub open spec fn sum_i64(s: Seq<i64>) -> int
    decreases s.len(),
{
    if s.len() == 0 {
        0
    } else {
        sum_i64(s.drop_last()) + s.last()
    }
}

/// Structural check of one manifest row (before chunks are probed).
pub fn manifest_shape_issue(chunk_count: usize, sizes: &Vec<i64>, total_size: i64) -> (r: Option<ManifestIssue>)
    requires
        forall|k: int| 0 <= k <= sizes@.len() ==> i64::MIN <= #[trigger] sum_i64(sizes@.take(k)) <= i64::MAX,
    ensures
        chunk_count != sizes@.len() ==> r == Some(ManifestIssue::LengthMismatch),
        chunk_count == sizes@.len() ==> (r is None <==> sum_i64(sizes@) == total_size),
        chunk_count == sizes@.len() && sum_i64(sizes@) != total_size ==> r == Some(
            ManifestIssue::TotalMismatch { total_size, sum: sum_i64(sizes@) as i64 },
        ),
{
    if chunk_count != sizes.len() {
        return Some(ManifestIssue::LengthMismatch);
    }
    let mut sum: i64 = 0;
    let mut k: usize = 0;
    while k < sizes.len()
        invariant
            k <= sizes@.len(),
            sum == sum_i64(sizes@.take(k as int)),
            forall|j: int| 0 <= j <= sizes@.len() ==> i64::MIN <= #[trigger] sum_i64(sizes@.take(j)) <= i64::MAX,
        decreases sizes@.len() - k,
    {
        assert(sizes@.take(k + 1).drop_last() =~= sizes@.take(k as int));
        assert(i64::MIN <= sum_i64(sizes@.take(k + 1)) <= i64::MAX);
        sum = sum + sizes[k];
        k += 1;
    }
    assert(sizes@.take(k as int) =~= sizes@);
    if sum != total_size {
        Some(ManifestIssue::TotalMismatch { total_size, sum })
    } else {
        None
    }
}

/// Totals reported by the dedup statistics (the ratio is computed by the
/// caller, in floating point).
#[derive(Debug, Clone, Copy, PartialEq, Eq)]
pub struct DedupTotals {
    pub total_blobs: u64,
    pub total_bytes_stored: u64,
    pub total_bytes_referenced: u64,
    pub bytes_saved: u64,
}

/// Referenced bytes come from the manifests when any exist (the larger of the
/// manifest-attributed and blob-attributed counts), else from the blobs alone;
/// saved bytes are referenced minus stored, floored at zero.
pub fn dedup_totals(
    total_blobs: i64,
    total_bytes_stored: i64,
    manifest_referenced: i64,
    all_blob_referenced: i64,
    manifest_count: i64,
) -> (r: DedupTotals)
    ensures
        r.total_blobs == total_blobs as u64,
        r.total_bytes_stored == total_bytes_stored as u64,
        r.total_bytes_referenced == if manifest_count > 0 {
            (if manifest_referenced >= all_blob_referenced {
                manifest_referenced
            } else {
                all_blob_referenced
            }) as u64
        } else {
            all_blob_referenced as u64
        },
        r.bytes_saved == if r.total_bytes_referenced >= r.total_bytes_stored {
            (r.total_bytes_referenced - r.total_bytes_stored) as u64
        } else {
            0
        },
{
    let referenced: u64 = if manifest_count > 0 {
        let m = if manifest_referenced >= all_blob_referenced {
            manifest_referenced
        } else {
            all_blob_referenced
        };
        m as u64
    } else {
        all_blob_referenced as u64
    };
    let stored = total_bytes_stored as u64;
    let saved = if referenced >= stored { referenced - stored } else { 0 };
    DedupTotals {
        total_blobs: total_blobs as u64,
        total_bytes_stored: stored,
        total_bytes_referenced: referenced,
        bytes_saved: saved,
    }
}

/// Server-side re-read of a proposed chunk sequence: recomputes the whole
/// hash, captures the first `sniff_len` bytes, and checks each chunk's
/// actual size against its declared size.
pub struct SequenceVerifier {
    hasher: blake3::Hasher,
    head: Vec<u8>,
    sniff_len: usize,
    current: u64,
    parts: Ghost<Seq<Seq<u8>>>,
}

impl SequenceVerifier {
    /// All bytes read so far, in order.
    pub closed spec fn read(&self) -> Seq<u8> {
        concat_all(self.parts@)
    }

    /// Bytes read of the current chunk.
    pub closed spec fn current(&self) -> nat {
        self.current as nat
    }

    pub closed spec fn wf(&self) -> bool {
        &&& hasher_absorbed(self.hasher) == concat_all(self.parts@)
        &&& self.head@ == concat_all(self.parts@).take(
            if concat_all(self.parts@).len() <= self.sniff_len {
                concat_all(self.parts@).len() as int
            } else {
                self.sniff_len as int
            },
        )
    }

    pub closed spec fn sniff(&self) -> nat {
        self.sniff_len as nat
    }

    pub fn new(sniff_len: usize) -> (v: Self)
        ensures
            v.wf(),
            v.read() == Seq::<u8>::empty(),
            v.current() == 0,
            v.sniff() == sniff_len,
    {
        let v = SequenceVerifier {
            hasher: hasher_new(),
            head: Vec::new(),
            sniff_len,
            current: 0,
            parts: Ghost(Seq::empty()),
        };
        assert(v.head@ =~= concat_all(v.parts@).take(0));
        v
    }

    /// Start reading the next chunk.
    pub fn begin_chunk(&mut self)
        requires
            old(self).wf(),
        ensures
            final(self).wf(),
            final(self).read() == old(self).read(),
            final(self).sniff() == old(self).sniff(),
            final(self).current() == 0,
    {
        self.current = 0;
    }

    /// Absorb the next piece of the current chunk.
    pub fn push_part(&mut self, part: &[u8])
        requires
            old(self).wf(),
            old(self).current() + part@.len() <= u64::MAX,
        ensures
            final(self).wf(),
            final(self).read() == old(self).read() + part@,
            final(self).current() == old(self).current() + part@.len(),
            final(self).sniff() == old(self).sniff(),
    {
        let ghost before = concat_all(self.parts@);
        proof {
            lemma_concat_all_push(self.parts@, part@);
        }
        self.current = self.current + part.len() as u64;
        hasher_update(&mut self.hasher, part);
        if self.head.len() < self.sniff_len {
            let mut h: Vec<u8> = Vec::new();
            std::mem::swap(&mut h, &mut self.head);
            let want = self.sniff_len - h.len();
            let take = if want <= part.len() { want } else { part.len() };
            let mut j: usize = 0;
            let ghost h0 = h@;
            while j < take
                invariant
                    j <= take,
                    take <= part@.len(),
                    h@ == h0 + part@.take(j as int),
                decreases take - j,
            {
                h.push(part[j]);
                assert(part@.take(j + 1) =~= part@.take(j as int).push(part@[j as int]));
                j += 1;
            }
            self.head = h;
            proof {
                self.parts@ = self.parts@.push(part@);
                let all = before + part@;
                assert(h0 =~= before);
                assert(self.head@ =~= all.take(
                    if all.len() <= self.sniff_len { all.len() as int } else { self.sniff_len as int },
                ));
            }
        } else {
            proof {
                self.parts@ = self.parts@.push(part@);
                let all = before + part@;
                assert(before.take(self.sniff_len as int) =~= all.take(self.sniff_len as int));
            }
        }
    }

    /// Whether the chunk just read has the declared size.
    pub fn chunk_size_ok(&self, declared: u64) -> (ok: bool)
        ensures
            ok == (self.current() == declared),
    {
        self.current == declared
    }

    /// The end of a chunk: refused, naming the chunk and both sizes, when
    /// the bytes read differ from the declared size; a sequence stops at
    /// its first such chunk.
    pub fn end_chunk(&self, hash: &str, declared: u64) -> (r: Result<(), String>)
        ensures
            r is Ok <==> self.current() == declared,
            r matches Err(m) ==> m@ == "Chunk "@ + hash@ + " is "@ + decimal_text(self.current()) + " bytes, manifest declares "@
                + decimal_text(declared as nat),
    {
        if self.current == declared {
            return Ok(());
        }
        let mut m = String::new();
        push_text(&mut m, "Chunk ");
        push_text(&mut m, hash);
        push_text(&mut m, " is ");
        push_decimal(&mut m, self.current);
        push_text(&mut m, " bytes, manifest declares ");
        push_decimal(&mut m, declared);
        Err(m)
    }

    /// The recomputed whole hash and the captured head bytes.
    pub fn finish(self) -> (r: (String, Vec<u8>))
        requires
            self.wf(),
        ensures
            r.0@ == blake3_hex(self.read()),
            r.1@ == self.read().take(
                if self.read().len() <= self.sniff() {
                    self.read().len() as int
                } else {
                    self.sniff() as int
                },
            ),
    {
        let h = hasher_finalize_hex(&self.hasher);
        (h, self.head)
    }
}

/// What an in-flight ingest has done that a rollback must undo: the chunks
/// it pinned (one reference taken on each), and the chunks it wrote with
/// their sizes (not yet registered).
pub struct IngestLedger {
    pinned: Vec<String>,
    written: Vec<(String, i64)>,
}

impl IngestLedger {
    pub closed spec fn pinned_of(&self) -> Seq<Seq<char>> {
        string_views(self.pinned@)
    }

    pub closed spec fn written_of(&self) -> Seq<(Seq<char>, i64)> {
        self.written@.map_values(|p: (String, i64)| (p.0@, p.1))
    }

    pub fn new() -> (l: Self)
        ensures
            l.pinned_of() == Seq::<Seq<char>>::empty(),
            l.written_of() == Seq::<(Seq<char>, i64)>::empty(),
    {
        let l = IngestLedger { pinned: Vec::new(), written: Vec::new() };
        assert(l.pinned_of() =~= Seq::<Seq<char>>::empty());
        assert(l.written_of() =~= Seq::<(Seq<char>, i64)>::empty());
        l
    }

    /// Record chunks pinned by a settled batch.
    pub fn record_pinned(&mut self, hashes: Vec<String>)
        ensures
            final(self).pinned_of() == old(self).pinned_of() + string_views(hashes@),
            final(self).written_of() == old(self).written_of(),
    {
        let mut rest = hashes;
        let ghost all = rest@;
        let ghost base = string_views(self.pinned@);
        let n = rest.len();
        let mut i: usize = 0;
        while rest.len() > 0
            invariant
                rest@ == all.subrange(i as int, n as int),
                n == all.len(),
                i + rest@.len() == n,
                string_views(self.pinned@) == base + string_views(all.take(i as int)),
                self.written@ == old(self).written@,
            decreases rest@.len(),
        {
            let h = rest.remove(0);
            let ghost before = self.pinned@;
            self.pinned.push(h);
            assert(string_views(self.pinned@) =~= string_views(before).push(all[i as int]@));
            assert(string_views(all.take(i + 1)) =~= string_views(all.take(i as int)).push(all[i as int]@));
            i += 1;
        }
        assert(all.take(n as int) =~= all);
    }

    /// Record chunks written by a settled batch.
    pub fn record_written(&mut self, rows: Vec<(String, i64)>)
        ensures
            final(self).written_of() == old(self).written_of() + rows@.map_values(|p: (String, i64)| (p.0@, p.1)),
            final(self).pinned_of() == old(self).pinned_of(),
    {
        let mut rest = rows;
        let ghost all = rest@;
        let ghost base = self.written_of();
        let n = rest.len();
        let mut i: usize = 0;
        while rest.len() > 0
            invariant
                rest@ == all.subrange(i as int, n as int),
                n == all.len(),
                i + rest@.len() == n,
                self.written@.map_values(|p: (String, i64)| (p.0@, p.1)) == base + all.take(i as int).map_values(
                    |p: (String, i64)| (p.0@, p.1),
                ),
                self.pinned@ == old(self).pinned@,
            decreases rest@.len(),
        {
            let r = rest.remove(0);
            let ghost before = self.written@;
            self.written.push(r);
            assert(self.written@.map_values(|p: (String, i64)| (p.0@, p.1)) =~= before.map_values(
                |p: (String, i64)| (p.0@, p.1),
            ).push((all[i as int].0@, all[i as int].1)));
            assert(all.take(i + 1).map_values(|p: (String, i64)| (p.0@, p.1)) =~= all.take(i as int).map_values(
                |p: (String, i64)| (p.0@, p.1),
            ).push((all[i as int].0@, all[i as int].1)));
            i += 1;
        }
        assert(all.take(n as int) =~= all);
    }

    /// Hand over everything recorded (for a rollback), leaving the ledger
    /// empty.
    pub fn take(&mut self) -> (r: (Vec<String>, Vec<(String, i64)>))
        ensures
            string_views(r.0@) == old(self).pinned_of(),
            r.1@.map_values(|p: (String, i64)| (p.0@, p.1)) == old(self).written_of(),
            final(self).pinned_of() == Seq::<Seq<char>>::empty(),
            final(self).written_of() == Seq::<(Seq<char>, i64)>::empty(),
    {
        let mut pinned: Vec<String> = Vec::new();
        let mut written: Vec<(String, i64)> = Vec::new();
        std::mem::swap(&mut pinned, &mut self.pinned);
        std::mem::swap(&mut written, &mut self.written);
        assert(self.pinned_of() =~= Seq::<Seq<char>>::empty());
        assert(self.written_of() =~= Seq::<(Seq<char>, i64)>::empty());
        (pinned, written)
    }
}

/// Whether ingest overlaps settling a batch with reading the next chunks:
/// on unless the setting is `0` or `false`.
pub fn overlap_enabled(setting: Option<&str>) -> (b: bool)
    ensures
        b == match setting {
            Some(v) => v@ != "0"@ && v@ != "false"@,
            None => true,
        },
{
    match setting {
        Some(v) => {
            let c = crate::text::str_chars(v);
            let zero = crate::text::str_chars("0");
            let no = crate::text::str_chars("false");
            !crate::text::chars_equal(&c, &zero) && !crate::text::chars_equal(&c, &no)
        },
        None => true,
    }
}


/// Settling a batch partitions it by the pinned set: a chunk whose hash is
/// anywhere in the set goes, in order, to the pinned hashes, and every other
/// chunk, in order, to the chunks to write; nothing is lost or duplicated.
pub proof fn law_split_partitions_batch(batch: Seq<(String, Vec<u8>)>, pinned: Seq<Seq<char>>)
    ensures
        pinned_part(batch, pinned) == batch.filter(|c: (String, Vec<u8>)| pinned.contains(c.0@)).map_values(
            |c: (String, Vec<u8>)| c.0@,
        ),
        unknown_part(batch, pinned) == batch.filter(|c: (String, Vec<u8>)| !pinned.contains(c.0@)),
        pinned_part(batch, pinned).len() + unknown_part(batch, pinned).len() == batch.len(),
    decreases batch.len(),
{
    reveal(Seq::filter);
    let fp = |c: (String, Vec<u8>)| pinned.contains(c.0@);
    let fu = |c: (String, Vec<u8>)| !pinned.contains(c.0@);
    let key = |c: (String, Vec<u8>)| c.0@;
    if batch.len() == 0 {
        assert(batch.filter(fp) =~= Seq::<(String, Vec<u8>)>::empty());
        assert(batch.filter(fp).map_values(key) =~= Seq::<Seq<char>>::empty());
    } else {
        let init = batch.drop_last();
        let x = batch.last();
        law_split_partitions_batch(init, pinned);
        assert(batch.filter(fp) == if fp(x) { init.filter(fp).push(x) } else { init.filter(fp) });
        assert(batch.filter(fu) == if fu(x) { init.filter(fu).push(x) } else { init.filter(fu) });
        if fp(x) {
            assert(init.filter(fp).push(x).map_values(key) =~= init.filter(fp).map_values(key).push(x.0@));
        }
    }
}

} // verus!
