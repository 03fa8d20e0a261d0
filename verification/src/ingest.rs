//! The decision core of the streaming content-defined-chunking ingest: every
//! chunk the chunker emits is hashed, recorded in file order, deduplicated
//! within the upload, and batched for settlement against the index.

use vstd::prelude::*;
use crate::hashing::{blake3_hash_hex, blake3_hex, hasher_absorbed, hasher_finalize_hex, hasher_new, hasher_update};
use crate::seq_facts::{concat_all, contains_string, first_occurrences, lemma_concat_all_push, string_views};

verus! {

/// Minimum content-defined chunk size (64 KiB).
pub const CDC_MIN_CHUNK: usize = 65_536;

/// Average content-defined chunk size (256 KiB).
pub const CDC_AVG_CHUNK: usize = 262_144;

/// Maximum content-defined chunk size (1 MiB).
pub const CDC_MAX_CHUNK: usize = 1_048_576;

/// A pending batch is settled once it holds this many distinct chunks…
pub const FLUSH_MAX_CHUNKS: usize = 32;

/// …or this many buffered bytes, whichever comes first.
pub const FLUSH_MAX_BYTES: u64 = 8_388_608;

/// Everything a streaming ingest learned about its byte stream.
#[derive(Debug, Clone)]
pub struct ChunkIngestOutcome {
    /// BLAKE3 of the complete byte stream (the manifest key).
    pub file_hash: String,
    /// Total bytes consumed from the stream.
    pub total_size: u64,
    /// Per-occurrence chunk hashes, in file order.
    pub chunk_hashes: Vec<String>,
    /// Per-occurrence chunk sizes, in file order.
    pub chunk_sizes: Vec<u64>,
    /// How many distinct chunks were actually written to the backend.
    pub newly_written: usize,
}

impl ChunkIngestOutcome {
    /// Distinct chunk hashes, in order of first appearance.
    pub fn distinct_hashes(&self) -> (r: Vec<String>)
        ensures
            string_views(r@) == first_occurrences(string_views(self.chunk_hashes@)),
    {
        let ghost all = string_views(self.chunk_hashes@);
        let mut r: Vec<String> = Vec::new();
        let mut i: usize = 0;
        while i < self.chunk_hashes.len()
            invariant
                i <= self.chunk_hashes.len(),
                all == string_views(self.chunk_hashes@),
                string_views(r@) == first_occurrences(all.take(i as int)),
            decreases self.chunk_hashes.len() - i,
        {
            let h = &self.chunk_hashes[i];
            let present = contains_string(&r, h);
            proof {
                assert(all.take(i + 1).drop_last() =~= all.take(i as int));
                assert(all.take(i + 1).last() == h@);
            }
            if !present {
                let c = h.clone();
                r.push(c);
                assert(string_views(r@) =~= first_occurrences(all.take(i as int)).push(h@));
            }
            i += 1;
        }
        assert(all.take(i as int) =~= all);
        r
    }
}

/// The hashes of a batch of `(hash, bytes)` chunks, in order.
pub open spec fn batch_hashes(b: Seq<(String, Vec<u8>)>) -> Seq<Seq<char>> {
    b.map_values(|p: (String, Vec<u8>)| p.0@)
}

/// The total byte count of a batch.
pub open spec fn batch_bytes(b: Seq<(String, Vec<u8>)>) -> int
    decreases b.len(),
{
    if b.len() == 0 {
        0
    } else {
        batch_bytes(b.drop_last()) + b.last().1@.len()
    }
}

/// Each element of the batch carries the hash of its own bytes.
pub open spec fn batch_hashes_match(b: Seq<(String, Vec<u8>)>) -> bool {
    forall|k: int| 0 <= k < b.len() ==> b[k].0@ == blake3_hex(#[trigger] b[k].1@)
}

/// What one chunk did to the ingest session.
#[derive(Debug)]
pub enum ChunkStep {
    /// The chunk repeats one already seen in this upload.
    Duplicate,
    /// A new distinct chunk, kept in the pending batch.
    Buffered,
    /// A new distinct chunk that filled the pending batch: the whole batch
    /// (this chunk last) is handed over for settlement.
    Flush(Vec<(String, Vec<u8>)>),
}

/// State of one streaming ingest.
pub struct IngestSession {
    file_hasher: blake3::Hasher,
    total_size: u64,
    chunk_hashes: Vec<String>,
    chunk_sizes: Vec<u64>,
    seen: Vec<String>,
    pending: Vec<(String, Vec<u8>)>,
    pending_bytes: u64,
    chunks: Ghost<Seq<Seq<u8>>>,
    flushed: Ghost<Seq<Seq<char>>>,
}

impl IngestSession {
    /// The chunk payloads received so far, in order.
    pub closed spec fn chunks(&self) -> Seq<Seq<u8>> {
        self.chunks@
    }

    /// Distinct chunks already handed over for settlement, in order.
    pub closed spec fn flushed(&self) -> Seq<Seq<char>> {
        self.flushed@
    }

    /// Hashes of the distinct chunks waiting in the pending batch.
    pub closed spec fn pending_hashes(&self) -> Seq<Seq<char>> {
        batch_hashes(self.pending@)
    }

    /// Bytes received so far.
    pub closed spec fn total(&self) -> nat {
        self.total_size as nat
    }

    pub closed spec fn wf(&self) -> bool {
        &&& hasher_absorbed(self.file_hasher) == concat_all(self.chunks@)
        &&& self.total_size == concat_all(self.chunks@).len()
        &&& self.chunk_hashes@.len() == self.chunks@.len()
        &&& self.chunk_sizes@.len() == self.chunks@.len()
        &&& forall|i: int|
            0 <= i < self.chunks@.len() ==> #[trigger] self.chunk_hashes@[i]@ == blake3_hex(
                self.chunks@[i],
            ) && self.chunk_sizes@[i] == self.chunks@[i].len()
        &&& string_views(self.seen@) == first_occurrences(string_views(self.chunk_hashes@))
        &&& self.flushed@ + batch_hashes(self.pending@) == string_views(self.seen@)
        &&& batch_hashes_match(self.pending@)
        &&& self.pending_bytes == batch_bytes(self.pending@)
        &&& self.pending@.len() < FLUSH_MAX_CHUNKS
        &&& self.pending_bytes < FLUSH_MAX_BYTES
        &&& self.pending_bytes <= self.total_size
    }

    /// A session that has received nothing.
    pub fn new() -> (s: Self)
        ensures
            s.wf(),
            s.chunks() == Seq::<Seq<u8>>::empty(),
            s.flushed() == Seq::<Seq<char>>::empty(),
            s.pending_hashes() == Seq::<Seq<char>>::empty(),
            s.total() == 0,
    {
        let s = IngestSession {
            file_hasher: hasher_new(),
            total_size: 0,
            chunk_hashes: Vec::new(),
            chunk_sizes: Vec::new(),
            seen: Vec::new(),
            pending: Vec::new(),
            pending_bytes: 0,
            chunks: Ghost(Seq::empty()),
            flushed: Ghost(Seq::empty()),
        };
        assert(string_views(s.seen@) =~= Seq::<Seq<char>>::empty());
        assert(string_views(s.chunk_hashes@) =~= Seq::<Seq<char>>::empty());
        assert(batch_hashes(s.pending@) =~= Seq::<Seq<char>>::empty());
        s
    }

    /// Account for the next chunk of the stream.
    pub fn push_chunk(&mut self, data: Vec<u8>) -> (step: ChunkStep)
        requires
            old(self).wf(),
            old(self).total() + data@.len() <= u64::MAX,
        ensures
            final(self).wf(),
            final(self).chunks() == old(self).chunks().push(data@),
            final(self).total() == old(self).total() + data@.len(),
            match step {
                ChunkStep::Duplicate => {
                    &&& (old(self).flushed() + old(self).pending_hashes()).contains(blake3_hex(data@))
                    &&& final(self).pending_hashes() == old(self).pending_hashes()
                    &&& final(self).flushed() == old(self).flushed()
                },
                ChunkStep::Buffered => {
                    &&& !(old(self).flushed() + old(self).pending_hashes()).contains(blake3_hex(data@))
                    &&& final(self).pending_hashes() == old(self).pending_hashes().push(
                        blake3_hex(data@),
                    )
                    &&& final(self).flushed() == old(self).flushed()
                },
                ChunkStep::Flush(batch) => {
                    &&& !(old(self).flushed() + old(self).pending_hashes()).contains(blake3_hex(data@))
                    &&& batch_hashes(batch@) == old(self).pending_hashes().push(blake3_hex(data@))
                    &&& batch_hashes_match(batch@)
                    &&& (batch@.len() >= FLUSH_MAX_CHUNKS || batch_bytes(batch@) >= FLUSH_MAX_BYTES)
                    &&& final(self).flushed() == old(self).flushed() + batch_hashes(batch@)
                    &&& final(self).pending_hashes() == Seq::<Seq<char>>::empty()
                },
            },
    {
        let ghost old_hashes = string_views(self.chunk_hashes@);
        let ghost old_seen = string_views(self.seen@);
        let len = data.len();
        proof {
            lemma_concat_all_push(self.chunks@, data@);
        }
        hasher_update(&mut self.file_hasher, data.as_slice());
        self.total_size = self.total_size + len as u64;
        let hash = blake3_hash_hex(data.as_slice());
        self.chunk_sizes.push(len as u64);
        self.chunk_hashes.push(hash.clone());
        proof {
            self.chunks@ = self.chunks@.push(data@);
            assert(string_views(self.chunk_hashes@) =~= old_hashes.push(hash@));
            assert(string_views(self.chunk_hashes@).drop_last() =~= old_hashes);
        }
        let present = contains_string(&self.seen, &hash);
        if present {
            return ChunkStep::Duplicate;
        }
        self.seen.push(hash.clone());
        assert(string_views(self.seen@) =~= old_seen.push(hash@));
        proof {
            lemma_batch_push(self.pending@, (hash, data));
        }
        self.pending.push((hash, data));
        self.pending_bytes = self.pending_bytes + len as u64;
        assert(batch_hashes(self.pending@) =~= batch_hashes(self.pending@.drop_last()).push(hash@));
        assert(self.pending@.drop_last() =~= old(self).pending@);
        if self.pending.len() >= FLUSH_MAX_CHUNKS || self.pending_bytes >= FLUSH_MAX_BYTES {
            let mut batch: Vec<(String, Vec<u8>)> = Vec::new();
            std::mem::swap(&mut batch, &mut self.pending);
            self.pending_bytes = 0;
            proof {
                self.flushed@ = self.flushed@ + batch_hashes(batch@);
                assert(batch_hashes(self.pending@) =~= Seq::<Seq<char>>::empty());
                assert(self.flushed@ + batch_hashes(self.pending@) =~= self.flushed@);
            }
            ChunkStep::Flush(batch)
        } else {
            ChunkStep::Buffered
        }
    }

    /// End of stream: the outcome, and the last (possibly empty) batch still
    /// to settle. `newly_written` is left at zero for the caller to fill in
    /// once every batch is settled.
    pub fn finish(self) -> (r: (ChunkIngestOutcome, Vec<(String, Vec<u8>)>))
        requires
            self.wf(),
        ensures
            r.0.file_hash@ == blake3_hex(concat_all(self.chunks())),
            r.0.total_size == concat_all(self.chunks()).len(),
            r.0.chunk_hashes@.len() == self.chunks().len(),
            r.0.chunk_sizes@.len() == self.chunks().len(),
            forall|i: int|
                0 <= i < self.chunks().len() ==> #[trigger] r.0.chunk_hashes@[i]@ == blake3_hex(
                    self.chunks()[i],
                ) && r.0.chunk_sizes@[i] == self.chunks()[i].len(),
            r.0.newly_written == 0,
            crate::seq_facts::sum_u64(r.0.chunk_sizes@) == r.0.total_size,
            batch_hashes(r.1@) == self.pending_hashes(),
            batch_hashes_match(r.1@),
            self.flushed() + batch_hashes(r.1@) == first_occurrences(
                string_views(r.0.chunk_hashes@),
            ),
    {
        let file_hash = hasher_finalize_hex(&self.file_hasher);
        proof {
            assert forall|i: int| 0 <= i < self.chunk_sizes@.len() implies #[trigger] self.chunk_sizes@[i]
                == self.chunks()[i].len() by {
                assert(self.chunk_hashes@[i]@ == blake3_hex(self.chunks@[i]));
            }
            crate::seq_facts::lemma_sum_lens(self.chunk_sizes@, self.chunks());
        }
        (
            ChunkIngestOutcome {
                file_hash,
                total_size: self.total_size,
                chunk_hashes: self.chunk_hashes,
                chunk_sizes: self.chunk_sizes,
                newly_written: 0,
            },
            self.pending,
        )
    }
}

pub proof fn lemma_batch_push(b: Seq<(String, Vec<u8>)>, x: (String, Vec<u8>))
    ensures
        batch_bytes(b.push(x)) == batch_bytes(b) + x.1@.len(),
        batch_hashes(b.push(x)) == batch_hashes(b).push(x.0@),
{
    assert(b.push(x).drop_last() =~= b);
    assert(batch_hashes(b.push(x)) =~= batch_hashes(b).push(x.0@));
}

} // verus!
