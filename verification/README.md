# oxicloud storage services

The storage-side logic of a self-hosted file cloud, verified with Verus.

`src/` is the verified library, one module per concern:

- `ingest`, `dedup_index`, `chunk_ranges`, `maintenance` — content-defined
  chunk deduplication: hashing and batching the chunks of an upload,
  settling batches, loose chunk uploads, byte-range reads over chunk
  manifests, integrity findings, garbage-collection tallies and the
  migration of legacy whole-file blobs.
- `blob_layout` — where blobs live on disk and in the read-through cache.
- `storage_path`, `path_service`, `path_resolver`, `fs_path` — user-facing
  storage paths, their resolution under the storage root, and WebDAV path
  lookup keys.
- `chunked_upload` — resumable chunked uploads: safe session and chunk
  paths, assembly order.
- `webdav_lock` — WebDAV lock timeouts and lock decisions.
- `share_listing`, `authz` — paginated share listings and the steps of a
  permission check.
- `content_index` — the search-index drain plan and stored previews.
- `thumbnails`, `faces`, `tokens`, `retry`, `schedules` — the policies of
  thumbnails, face indexing, access tokens (their times, cache key and the
  steps of validating one against the validation cache), retries and the
  maintenance daemons.
- `hashing`, `text`, `decimal`, `ordering`, `seq_facts` — BLAKE3 through
  the `blake3` crate (one-shot and incremental), text helpers, decimal
  numbers, sorting, and sequence facts shared by the contracts.

Laws that span functions are public proof functions named `law_*`.

`app/` holds what the library leaves to others: filesystem work, the
streaming chunker, the in-memory lock store (its caches; the lock
decisions are the library's), the retry loop and its
floating-point backoff, thumbnail rendering through the image codecs,
video frames through `ffmpeg`, the floating-point face geometry, and
the signing and decoding of access tokens (their claims carry serde's
derives). `tests/` exercises the library on concrete values.
