//! Maintenance of the deduplicating blob store: integrity findings, the
//! tally of a garbage-collection sweep, and the bookkeeping of the
//! migration of legacy whole-file blobs to chunk manifests.

use vstd::prelude::*;
use vstd::string::StringSliceAdditionalSpecFns;
use vstd::utf8::{encode_utf8, is_char_boundary};
use crate::blob_layout::{byte_prefix, is_hash_prefix};
use crate::decimal::{decimal_text, push_decimal};
use crate::dedup_index::{manifest_shape_issue, sum_i64, ManifestIssue};
use crate::seq_facts::{contains_string, string_views};
use crate::text::{push_char, push_text};

verus! {

/// A manifest row: the chunks of one file, in order.
#[derive(Debug, Clone)]
pub struct ChunkManifest {
    pub chunk_hashes: Vec<String>,
    pub chunk_sizes: Vec<i64>,
    pub total_size: i64,
}

/// Decimal text of a signed number.
pub open spec fn signed_text(n: int) -> Seq<char> {
    if n < 0 {
        seq!['-'] + decimal_text((-n) as nat)
    } else {
        decimal_text(n as nat)
    }
}

fn push_signed(out: &mut String, n: i64)
    ensures
        final(out)@ == old(out)@ + signed_text(n as int),
{
    if n < 0 {
        push_char(out, '-');
        let m: u64 = if n == i64::MIN {
            9_223_372_036_854_775_808u64
        } else {
            (-n) as u64
        };
        let ghost mid = out@;
        push_decimal(out, m);
        assert(out@ =~= old(out)@ + signed_text(n as int));
    } else {
        push_decimal(out, n as u64);
    }
}

/// One finding of an integrity check. Labels are the first 12 bytes of a
/// hash.
#[derive(Debug, Clone)]
pub enum IntegrityIssue {
    ManifestLengthMismatch { label: String },
    ManifestTotalMismatch { label: String, total_size: i64, sum: i64 },
    ManifestChunkSizeMismatch { label: String, chunk_label: String, expected: i64, actual: u64 },
    ManifestChunkMissing { label: String, chunk_label: String },
    BlobSizeMismatch { hash: String, expected: i64, actual: u64 },
    BlobMissing { hash: String },
    BlobHashMismatch { hash: String, actual: String },
    BlobReadError { hash: String, error: String },
}

/// The report line of a finding.
pub open spec fn issue_text(i: IntegrityIssue) -> Seq<char> {
    match i {
        IntegrityIssue::ManifestLengthMismatch { label } => "Manifest "@ + label@
            + ": chunk_hashes/chunk_sizes length mismatch"@,
        IntegrityIssue::ManifestTotalMismatch { label, total_size, sum } => "Manifest "@ + label@
            + ": total_size "@ + signed_text(total_size as int) + " != sum of chunk_sizes "@
            + signed_text(sum as int),
        IntegrityIssue::ManifestChunkSizeMismatch { label, chunk_label, expected, actual } => "Manifest "@
            + label@ + " chunk "@ + chunk_label@ + ": size mismatch (expected "@ + signed_text(
            expected as int,
        ) + ", actual "@ + decimal_text(actual as nat) + ")"@,
        IntegrityIssue::ManifestChunkMissing { label, chunk_label } => "Manifest "@ + label@ + " chunk "@
            + chunk_label@ + ": missing in backend"@,
        IntegrityIssue::BlobSizeMismatch { hash, expected, actual } => hash@ + ": size mismatch (expected: "@
            + signed_text(expected as int) + ", actual: "@ + decimal_text(actual as nat) + ")"@,
        IntegrityIssue::BlobMissing { hash } => hash@ + ": blob missing in backend"@,
        IntegrityIssue::BlobHashMismatch { hash, actual } => hash@ + ": hash mismatch (actual: "@ + actual@
            + ")"@,
        IntegrityIssue::BlobReadError { hash, error } => hash@ + ": read error ("@ + error@ + ")"@,
    }
}

impl IntegrityIssue {
    /// The report line of this finding.
    pub fn describe(&self) -> (s: String)
        ensures
            s@ == issue_text(*self),
    {
        let mut s = String::new();
        match self {
            IntegrityIssue::ManifestLengthMismatch { label } => {
                push_text(&mut s, "Manifest ");
                push_text(&mut s, label.as_str());
                push_text(&mut s, ": chunk_hashes/chunk_sizes length mismatch");
            },
            IntegrityIssue::ManifestTotalMismatch { label, total_size, sum } => {
                push_text(&mut s, "Manifest ");
                push_text(&mut s, label.as_str());
                push_text(&mut s, ": total_size ");
                push_signed(&mut s, *total_size);
                push_text(&mut s, " != sum of chunk_sizes ");
                push_signed(&mut s, *sum);
            },
            IntegrityIssue::ManifestChunkSizeMismatch { label, chunk_label, expected, actual } => {
                push_text(&mut s, "Manifest ");
                push_text(&mut s, label.as_str());
                push_text(&mut s, " chunk ");
                push_text(&mut s, chunk_label.as_str());
                push_text(&mut s, ": size mismatch (expected ");
                push_signed(&mut s, *expected);
                push_text(&mut s, ", actual ");
                push_decimal(&mut s, *actual);
                push_text(&mut s, ")");
            },
            IntegrityIssue::ManifestChunkMissing { label, chunk_label } => {
                push_text(&mut s, "Manifest ");
                push_text(&mut s, label.as_str());
                push_text(&mut s, " chunk ");
                push_text(&mut s, chunk_label.as_str());
                push_text(&mut s, ": missing in backend");
            },
            IntegrityIssue::BlobSizeMismatch { hash, expected, actual } => {
                push_text(&mut s, hash.as_str());
                push_text(&mut s, ": size mismatch (expected: ");
                push_signed(&mut s, *expected);
                push_text(&mut s, ", actual: ");
                push_decimal(&mut s, *actual);
                push_text(&mut s, ")");
            },
            IntegrityIssue::BlobMissing { hash } => {
                push_text(&mut s, hash.as_str());
                push_text(&mut s, ": blob missing in backend");
            },
            IntegrityIssue::BlobHashMismatch { hash, actual } => {
                push_text(&mut s, hash.as_str());
                push_text(&mut s, ": hash mismatch (actual: ");
                push_text(&mut s, actual.as_str());
                push_text(&mut s, ")");
            },
            IntegrityIssue::BlobReadError { hash, error } => {
                push_text(&mut s, hash.as_str());
                push_text(&mut s, ": read error (");
                push_text(&mut s, error.as_str());
                push_text(&mut s, ")");
            },
        }
        s
    }
}

/// How many bytes of a hash make its label: 12, or all of a shorter hash.
pub open spec fn label_len(hash: Seq<char>) -> int {
    if encode_utf8(hash).len() < 12 {
        encode_utf8(hash).len() as int
    } else {
        12
    }
}

/// The label of a hash: its first 12 bytes.
pub fn hash_label(hash: &str) -> (r: String)
    requires
        is_char_boundary(hash.spec_bytes(), label_len(hash@)),
    ensures
        is_hash_prefix(hash@, r@, label_len(hash@)),
{
    let n = hash.as_bytes().len();
    let cut = if n < 12 { n } else { 12 };
    byte_prefix(hash, cut)
}

/// The structural findings of a manifest row, and whether its chunks are to
/// be probed (only when the hash and size lists match in length).
pub fn manifest_findings(file_hash: &str, chunk_count: usize, sizes: &Vec<i64>, total_size: i64) -> (r: (Vec<IntegrityIssue>, bool))
    requires
        is_char_boundary(file_hash.spec_bytes(), label_len(file_hash@)),
        forall|k: int| 0 <= k <= sizes@.len() ==> i64::MIN <= #[trigger] sum_i64(sizes@.take(k)) <= i64::MAX,
    ensures
        r.1 == (chunk_count == sizes@.len()),
        chunk_count != sizes@.len() ==> r.0@.len() == 1 && (r.0@[0] matches IntegrityIssue::ManifestLengthMismatch {
            label,
        } && is_hash_prefix(file_hash@, label@, label_len(file_hash@))),
        chunk_count == sizes@.len() && sum_i64(sizes@) == total_size ==> r.0@.len() == 0,
        chunk_count == sizes@.len() && sum_i64(sizes@) != total_size ==> r.0@.len() == 1 && (r.0@[0] matches IntegrityIssue::ManifestTotalMismatch {
            label,
            total_size: t,
            sum,
        } && is_hash_prefix(file_hash@, label@, label_len(file_hash@)) && t == total_size && sum
            == sum_i64(sizes@)),
{
    let mut out: Vec<IntegrityIssue> = Vec::new();
    assert(sizes@.take(sizes@.len() as int) =~= sizes@);
    match manifest_shape_issue(chunk_count, sizes, total_size) {
        Some(ManifestIssue::LengthMismatch) => {
            out.push(IntegrityIssue::ManifestLengthMismatch { label: hash_label(file_hash) });
            (out, false)
        },
        Some(ManifestIssue::TotalMismatch { total_size: t, sum }) => {
            out.push(IntegrityIssue::ManifestTotalMismatch { label: hash_label(file_hash), total_size: t, sum });
            (out, true)
        },
        None => (out, true),
    }
}

/// `r` is the finding of one chunk of a manifest, from the backend's size
/// of it (`None`: the backend does not have it): none when the sizes agree.
pub open spec fn chunk_finding_ok(file_hash: Seq<char>, chunk_hash: Seq<char>, expected: i64, actual: Option<u64>, r: Option<IntegrityIssue>) -> bool {
    match actual {
        None => r matches Some(IntegrityIssue::ManifestChunkMissing { label, chunk_label }) && is_hash_prefix(
            file_hash,
            label@,
            label_len(file_hash),
        ) && is_hash_prefix(chunk_hash, chunk_label@, label_len(chunk_hash)),
        Some(a) => if a == expected as u64 {
            r is None
        } else {
            r matches Some(IntegrityIssue::ManifestChunkSizeMismatch { label, chunk_label, expected: e, actual: x })
                && is_hash_prefix(file_hash, label@, label_len(file_hash)) && is_hash_prefix(
                chunk_hash,
                chunk_label@,
                label_len(chunk_hash),
            ) && e == expected && x == a
        },
    }
}

/// The finding of one chunk of a manifest, from the backend's size of it
/// (`None`: the backend does not have it).
pub fn manifest_chunk_finding(file_hash: &str, chunk_hash: &str, expected: i64, actual: Option<u64>) -> (r: Option<IntegrityIssue>)
    requires
        is_char_boundary(file_hash.spec_bytes(), label_len(file_hash@)),
        is_char_boundary(chunk_hash.spec_bytes(), label_len(chunk_hash@)),
    ensures
        chunk_finding_ok(file_hash@, chunk_hash@, expected, actual, r),
{
    match actual {
        None => Some(IntegrityIssue::ManifestChunkMissing { label: hash_label(file_hash), chunk_label: hash_label(chunk_hash) }),
        Some(a) => if a == expected as u64 {
            None
        } else {
            Some(
                IntegrityIssue::ManifestChunkSizeMismatch {
                    label: hash_label(file_hash),
                    chunk_label: hash_label(chunk_hash),
                    expected,
                    actual: a,
                },
            )
        },
    }
}

/// `out` holds, in order, the findings of the first `n` chunks of a
/// manifest whose chunks the backend sized as `probes`.
pub open spec fn chunk_findings_upto(
    file_hash: Seq<char>,
    hashes: Seq<Seq<char>>,
    sizes: Seq<i64>,
    probes: Seq<Option<u64>>,
    n: int,
    out: Seq<IntegrityIssue>,
) -> bool
    decreases n,
{
    if n <= 0 {
        out.len() == 0
    } else {
        let k = n - 1;
        if probes[k] == Some(sizes[k] as u64) {
            chunk_findings_upto(file_hash, hashes, sizes, probes, k, out)
        } else {
            &&& out.len() > 0
            &&& chunk_finding_ok(file_hash, hashes[k], sizes[k], probes[k], Some(out.last()))
            &&& chunk_findings_upto(file_hash, hashes, sizes, probes, k, out.drop_last())
        }
    }
}

/// Every finding of one manifest row, in the order the integrity check
/// reports them: a length mismatch alone; otherwise the total mismatch, if
/// any, then the finding of each chunk (from the backend's size of it,
/// `None` when the backend does not have it), chunk by chunk.
pub fn manifest_report(
    file_hash: &str,
    chunk_hashes: &Vec<String>,
    sizes: &Vec<i64>,
    total_size: i64,
    probes: &Vec<Option<u64>>,
) -> (r: Vec<IntegrityIssue>)
    requires
        is_char_boundary(file_hash.spec_bytes(), label_len(file_hash@)),
        forall|k: int|
            0 <= k < chunk_hashes@.len() ==> is_char_boundary(
                encode_utf8((#[trigger] chunk_hashes@[k])@),
                label_len(chunk_hashes@[k]@),
            ),
        chunk_hashes@.len() == sizes@.len() ==> probes@.len() == sizes@.len(),
        chunk_hashes@.len() == sizes@.len() ==> forall|k: int|
            0 <= k <= sizes@.len() ==> i64::MIN <= #[trigger] sum_i64(sizes@.take(k)) <= i64::MAX,
    ensures
        chunk_hashes@.len() != sizes@.len() ==> r@.len() == 1 && (r@[0] matches IntegrityIssue::ManifestLengthMismatch {
            label,
        } && is_hash_prefix(file_hash@, label@, label_len(file_hash@))),
        chunk_hashes@.len() == sizes@.len() ==> ({
            let s0: int = if sum_i64(sizes@) == total_size { 0 } else { 1 };
            &&& r@.len() >= s0
            &&& s0 == 1 ==> (r@[0] matches IntegrityIssue::ManifestTotalMismatch { label, total_size: t, sum }
                && is_hash_prefix(file_hash@, label@, label_len(file_hash@)) && t == total_size && sum
                == sum_i64(sizes@))
            &&& chunk_findings_upto(
                file_hash@,
                string_views(chunk_hashes@),
                sizes@,
                probes@,
                sizes@.len() as int,
                r@.skip(s0),
            )
        }),
{
    if chunk_hashes.len() != sizes.len() {
        let mut out: Vec<IntegrityIssue> = Vec::new();
        out.push(IntegrityIssue::ManifestLengthMismatch { label: hash_label(file_hash) });
        return out;
    }
    let (mut out, _) = manifest_findings(file_hash, chunk_hashes.len(), sizes, total_size);
    let ghost s0: int = out@.len() as int;
    let ghost head = out@;
    let ghost hv = string_views(chunk_hashes@);
    assert(out@.skip(s0) =~= Seq::<IntegrityIssue>::empty());
    let mut k: usize = 0;
    while k < sizes.len()
        invariant
            k <= sizes@.len(),
            sizes@.len() == chunk_hashes@.len(),
            probes@.len() == sizes@.len(),
            hv == string_views(chunk_hashes@),
            is_char_boundary(file_hash.spec_bytes(), label_len(file_hash@)),
            forall|j: int|
                0 <= j < chunk_hashes@.len() ==> is_char_boundary(
                    encode_utf8((#[trigger] chunk_hashes@[j])@),
                    label_len(chunk_hashes@[j]@),
                ),
            0 <= s0 <= out@.len(),
            out@.take(s0) == head.take(s0),
            chunk_findings_upto(file_hash@, hv, sizes@, probes@, k as int, out@.skip(s0)),
        decreases sizes@.len() - k,
    {
        let ch = chunk_hashes[k].as_str();
        assert(is_char_boundary(encode_utf8(chunk_hashes@[k as int]@), label_len(chunk_hashes@[k as int]@)));
        let f = manifest_chunk_finding(file_hash, ch, sizes[k], probes[k]);
        let ghost before = out@;
        proof {
            assert(hv[k as int] == chunk_hashes@[k as int]@);
        }
        match f {
            Some(issue) => {
                out.push(issue);
                proof {
                    assert(out@.skip(s0).drop_last() =~= before.skip(s0));
                    assert(out@.skip(s0).last() == issue);
                    assert(out@.take(s0) =~= before.take(s0));
                }
            },
            None => {},
        }
        k += 1;
    }
    proof {
        if s0 == 1 {
            assert(out@[0] == out@.take(s0)[0]);
            assert(head[0] == head.take(s0)[0]);
        }
    }
    out
}

/// The size finding of a stored blob (`None`: the backend does not have
/// it, which also ends the checks of this blob).
pub fn blob_size_finding(hash: &String, expected: i64, actual: Option<u64>) -> (r: Option<IntegrityIssue>)
    ensures
        match actual {
            None => r matches Some(IntegrityIssue::BlobMissing { hash: h }) && h@ == hash@,
            Some(a) => if a == expected as u64 {
                r is None
            } else {
                r matches Some(IntegrityIssue::BlobSizeMismatch { hash: h, expected: e, actual: x }) && h@
                    == hash@ && e == expected && x == a
            },
        },
{
    match actual {
        None => Some(IntegrityIssue::BlobMissing { hash: hash.clone() }),
        Some(a) => if a == expected as u64 {
            None
        } else {
            Some(IntegrityIssue::BlobSizeMismatch { hash: hash.clone(), expected, actual: a })
        },
    }
}

/// The content finding of a local blob, from the hash recomputed over its
/// bytes (or the read error).
pub fn blob_hash_finding(hash: &String, recomputed: Result<String, String>) -> (r: Option<IntegrityIssue>)
    ensures
        match recomputed {
            Ok(h) => if h@ == hash@ {
                r is None
            } else {
                r matches Some(IntegrityIssue::BlobHashMismatch { hash: x, actual }) && x@ == hash@ && actual@
                    == h@
            },
            Err(e) => r matches Some(IntegrityIssue::BlobReadError { hash: x, error }) && x@ == hash@ && error@
                == e@,
        },
{
    match recomputed {
        Ok(h) => if h == *hash {
            None
        } else {
            Some(IntegrityIssue::BlobHashMismatch { hash: hash.clone(), actual: h })
        },
        Err(e) => Some(IntegrityIssue::BlobReadError { hash: hash.clone(), error: e }),
    }
}

// ── Garbage collection ──────────────────────────────────────────────────

/// Orphans younger than this (seconds) are left to a concurrent uploader.
pub const GC_ORPHAN_GRACE_SECS: i64 = 3600;

/// Rows removed per collection batch.
pub const GC_BATCH_SIZE: i64 = 500;

/// What a collection sweep removed: items, and bytes.
#[derive(Debug, Clone, Copy, PartialEq, Eq)]
pub struct GcTally {
    pub deleted: u64,
    pub bytes: u64,
}

pub open spec fn sizes_total(sizes: Seq<i64>) -> int
    decreases sizes.len(),
{
    if sizes.len() == 0 {
        0
    } else {
        sizes_total(sizes.drop_last()) + (sizes.last() as u64)
    }
}

impl GcTally {
    pub fn new() -> (t: Self)
        ensures
            t.deleted == 0 && t.bytes == 0,
    {
        GcTally { deleted: 0, bytes: 0 }
    }

    /// Account for one removed batch of the given sizes.
    pub fn add_batch(&mut self, sizes: &Vec<i64>)
        requires
            old(self).deleted + sizes@.len() <= u64::MAX,
            old(self).bytes + sizes_total(sizes@) <= u64::MAX,
        ensures
            final(self).deleted == old(self).deleted + sizes@.len(),
            final(self).bytes == old(self).bytes + sizes_total(sizes@),
    {
        let mut i: usize = 0;
        let ghost b0 = self.bytes;
        let ghost d0 = self.deleted;
        proof {
            assert forall|k: int| 0 <= k <= sizes@.len() implies sizes_total(#[trigger] sizes@.take(k)) <= sizes_total(sizes@) by {
                lemma_sizes_total_prefix(sizes@, k);
            }
            assert(sizes@.take(0) =~= Seq::<i64>::empty());
        }
        while i < sizes.len()
            invariant
                i <= sizes@.len(),
                self.bytes == b0 + sizes_total(sizes@.take(i as int)),
                self.deleted == d0,
                d0 + sizes@.len() <= u64::MAX,
                b0 + sizes_total(sizes@) <= u64::MAX,
                forall|k: int| 0 <= k <= sizes@.len() ==> sizes_total(#[trigger] sizes@.take(k)) <= sizes_total(sizes@),
            decreases sizes@.len() - i,
        {
            assert(sizes@.take(i + 1).drop_last() =~= sizes@.take(i as int));
            assert(sizes_total(sizes@.take(i + 1)) <= sizes_total(sizes@));
            self.bytes = self.bytes + sizes[i] as u64;
            i += 1;
        }
        assert(sizes@.take(i as int) =~= sizes@);
        self.deleted = self.deleted + sizes.len() as u64;
    }
}

pub proof fn lemma_sizes_total_prefix(sizes: Seq<i64>, k: int)
    requires
        0 <= k <= sizes.len(),
    ensures
        sizes_total(sizes.take(k)) <= sizes_total(sizes),
    decreases sizes.len() - k,
{
    if k < sizes.len() {
        lemma_sizes_total_prefix(sizes, k + 1);
        assert(sizes.take(k + 1).drop_last() =~= sizes.take(k));
    } else {
        assert(sizes.take(k) =~= sizes);
    }
}

// ── Legacy re-chunk migration ───────────────────────────────────────────

/// What a re-chunk sweep did.
#[derive(Debug, Clone, Copy, PartialEq, Eq, Default)]
pub struct LegacyRechunkReport {
    /// Legacy blobs converted to chunk manifests.
    pub migrated: u64,
    /// Blobs that failed (corrupt or unreadable) and were left untouched.
    pub failed: u64,
    /// Bytes of whole-file blobs deleted after conversion.
    pub freed_bytes: u64,
}

/// Failures after which a sweep stops: that many corrupt blobs is a sign of
/// something systemic.
pub const RECHUNK_MAX_FAILURES: usize = 1_000;

/// Progress of a re-chunk sweep; failed blobs are excluded from the next
/// candidate batches.
pub struct RechunkSweep {
    report: LegacyRechunkReport,
    failed_hashes: Vec<String>,
}

impl RechunkSweep {
    pub closed spec fn report_of(&self) -> LegacyRechunkReport {
        self.report
    }

    pub closed spec fn failed_of(&self) -> Seq<Seq<char>> {
        string_views(self.failed_hashes@)
    }

    pub fn new() -> (s: Self)
        ensures
            s.report_of() == (LegacyRechunkReport { migrated: 0, failed: 0, freed_bytes: 0 }),
            s.failed_of() == Seq::<Seq<char>>::empty(),
    {
        let s = RechunkSweep {
            report: LegacyRechunkReport { migrated: 0, failed: 0, freed_bytes: 0 },
            failed_hashes: Vec::new(),
        };
        assert(s.failed_of() =~= Seq::<Seq<char>>::empty());
        s
    }

    /// A blob converted, freeing `freed` bytes.
    pub fn record_success(&mut self, freed: u64)
        requires
            old(self).report_of().migrated < u64::MAX,
            old(self).report_of().freed_bytes + freed <= u64::MAX,
        ensures
            final(self).report_of() == (LegacyRechunkReport {
                migrated: (old(self).report_of().migrated + 1) as u64,
                freed_bytes: (old(self).report_of().freed_bytes + freed) as u64,
                ..old(self).report_of()
            }),
            final(self).failed_of() == old(self).failed_of(),
    {
        self.report.migrated = self.report.migrated + 1;
        self.report.freed_bytes = self.report.freed_bytes + freed;
    }

    /// A blob failed: counted and excluded from later batches. Returns
    /// whether the sweep must stop.
    pub fn record_failure(&mut self, hash: String) -> (stop: bool)
        requires
            old(self).report_of().failed < u64::MAX,
        ensures
            final(self).report_of() == (LegacyRechunkReport {
                failed: (old(self).report_of().failed + 1) as u64,
                ..old(self).report_of()
            }),
            final(self).failed_of() == old(self).failed_of().push(hash@),
            stop == (final(self).failed_of().len() >= RECHUNK_MAX_FAILURES),
    {
        self.report.failed = self.report.failed + 1;
        let ghost before = self.failed_hashes@;
        self.failed_hashes.push(hash);
        assert(string_views(self.failed_hashes@) =~= string_views(before).push(self.failed_hashes@[before.len() as int]@));
        self.failed_hashes.len() >= RECHUNK_MAX_FAILURES
    }

    /// The hashes excluded from candidate batches.
    pub fn failed_hashes(&self) -> (r: &Vec<String>)
        ensures
            string_views(r@) == self.failed_of(),
    {
        &self.failed_hashes
    }

    pub fn report(&self) -> (r: LegacyRechunkReport)
        ensures
            r == self.report_of(),
    {
        self.report
    }
}

/// Total bytes of a re-chunked file, from its chunk sizes.
pub fn rechunk_total(sizes: &Vec<u64>) -> (t: u64)
    requires
        crate::seq_facts::sum_u64(sizes@) <= u64::MAX,
    ensures
        t == crate::seq_facts::sum_u64(sizes@),
{
    let mut t: u64 = 0;
    let mut i: usize = 0;
    while i < sizes.len()
        invariant
            i <= sizes@.len(),
            t == crate::seq_facts::sum_u64(sizes@.take(i as int)),
            crate::seq_facts::sum_u64(sizes@) <= u64::MAX,
        decreases sizes@.len() - i,
    {
        proof {
            assert(sizes@.take(i + 1).drop_last() =~= sizes@.take(i as int));
            lemma_sum_prefix(sizes@, i + 1);
        }
        t = t + sizes[i];
        i += 1;
    }
    assert(sizes@.take(i as int) =~= sizes@);
    t
}

proof fn lemma_sum_prefix(s: Seq<u64>, k: int)
    requires
        0 <= k <= s.len(),
    ensures
        crate::seq_facts::sum_u64(s.take(k)) <= crate::seq_facts::sum_u64(s),
    decreases s.len() - k,
{
    if k < s.len() {
        lemma_sum_prefix(s, k + 1);
        assert(s.take(k + 1).drop_last() =~= s.take(k));
    } else {
        assert(s.take(k) =~= s);
    }
}

/// After a conversion commits: the whole-file blob is deleted only when
/// its row went away and it is not itself one of the new chunks.
pub fn delete_legacy_blob(row_deleted: bool, hash: &String, chunk_hashes: &Vec<String>) -> (b: bool)
    ensures
        b == (row_deleted && !string_views(chunk_hashes@).contains(hash@)),
{
    row_deleted && !contains_string(chunk_hashes, hash)
}

/// Bytes a conversion freed: the file's size when its whole-file blob was
/// deleted, else nothing.
pub fn freed_by_conversion(deleted: bool, total: u64) -> (f: u64)
    ensures
        f == if deleted { total } else { 0 },
{
    if deleted {
        total
    } else {
        0
    }
}

// ── Reference release ───────────────────────────────────────────────────

/// What removing one file reference does to a manifest.
#[derive(Debug, Clone, Copy, PartialEq, Eq)]
pub enum ManifestRelease {
    /// The manifest is gone already: nothing to do, nothing deleted.
    Missing,
    /// Last reference: delete the manifest and release one reference on each
    /// chunk (the blob is deleted).
    DeleteManifest,
    /// Others still reference it: decrement its count (not deleted).
    Decrement,
}

/// The release of a manifest reference, from the locked current count.
pub fn manifest_release(current_ref_count: Option<i32>) -> (r: ManifestRelease)
    ensures
        r == match current_ref_count {
            None => ManifestRelease::Missing,
            Some(rc) => if rc <= 1 {
                ManifestRelease::DeleteManifest
            } else {
                ManifestRelease::Decrement
            },
        },
{
    match current_ref_count {
        None => ManifestRelease::Missing,
        Some(rc) => if rc <= 1 {
            ManifestRelease::DeleteManifest
        } else {
            ManifestRelease::Decrement
        },
    }
}

/// What removing one file reference does to a legacy whole-file blob.
#[derive(Debug, Clone, Copy, PartialEq, Eq)]
pub enum LegacyRelease {
    /// No such blob row: nothing deleted.
    Missing,
    /// No reference left: delete the row and the blob file.
    Delete,
    /// Store the decremented count.
    Update(i32),
}

/// The release of a legacy blob reference, from the locked count (floored
/// at zero).
pub fn legacy_release(ref_count: Option<i32>) -> (r: LegacyRelease)
    requires
        ref_count matches Some(rc) ==> rc > i32::MIN,
    ensures
        r == match ref_count {
            None => LegacyRelease::Missing,
            Some(rc) => if rc - 1 <= 0 {
                LegacyRelease::Delete
            } else {
                LegacyRelease::Update((rc - 1) as i32)
            },
        },
{
    match ref_count {
        None => LegacyRelease::Missing,
        Some(rc) => {
            let next = if rc - 1 > 0 { rc - 1 } else { 0 };
            if next == 0 {
                LegacyRelease::Delete
            } else {
                LegacyRelease::Update(next)
            }
        },
    }
}

} // verus!
