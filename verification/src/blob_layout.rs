//! On-disk layout of content-addressed blobs: the local backend keeps each
//! blob at `{root}/.blobs/{first two bytes of the hash}/{hash}.blob`, the
//! read-through cache in front of a remote backend at
//! `{cache_dir}/{prefix}/{hash}.blob`; plus the small arithmetic of their
//! reads and syncs.

use vstd::prelude::*;
use vstd::string::StringSliceAdditionalSpecFns;
use vstd::utf8::{encode_utf8, is_char_boundary};
use crate::decimal::{parse_u64, parsed_u64};
use crate::fs_path::{path_push, push};
use crate::seq_facts::string_views;
use crate::share_listing::sorted_names;
use crate::ordering::sorted_by_key;
use crate::text::{push_char, push_text, str_chars};

verus! {

/// Read-ahead depth of chunked reads when no override is configured.
pub const DEFAULT_LOCAL_READ_PREFETCH: usize = 2;

/// Parallel fsync tasks of a sync sweep.
pub const SYNC_SWEEP_CONCURRENCY: usize = 16;

/// The local filesystem blob backend's layout.
#[derive(Debug, Clone)]
pub struct LocalBlobBackend {
    blob_root: String,
    temp_root: String,
    read_prefetch: usize,
}

/// The read-ahead depth an override text asks for: a decimal count, at
/// least 1; the default when absent or not a number.
pub open spec fn prefetch_of(setting: Option<Seq<char>>) -> usize {
    match setting {
        Some(t) => match parsed_u64(t) {
            Some(n) => if n == 0 {
                1
            } else if n <= usize::MAX {
                n as usize
            } else {
                DEFAULT_LOCAL_READ_PREFETCH
            },
            None => DEFAULT_LOCAL_READ_PREFETCH,
        },
        None => DEFAULT_LOCAL_READ_PREFETCH,
    }
}

/// `{name}.blob`.
pub open spec fn blob_file_name(hash: Seq<char>) -> Seq<char> {
    hash + ".blob"@
}

/// The text whose UTF-8 encoding is the first two bytes of `hash`.
pub open spec fn is_hash_prefix(hash: Seq<char>, prefix: Seq<char>, n: int) -> bool {
    encode_utf8(prefix) == encode_utf8(hash).take(n)
}

fn blob_file_text(hash: &str) -> (r: String)
    ensures
        r@ == blob_file_name(hash@),
{
    let mut r = String::new();
    push_text(&mut r, hash);
    push_text(&mut r, ".blob");
    r
}

/// The first `n` bytes of `hash`, as text.
pub(crate) fn byte_prefix(hash: &str, n: usize) -> (r: String)
    requires
        n <= hash.spec_bytes().len(),
        is_char_boundary(hash.spec_bytes(), n as int),
    ensures
        is_hash_prefix(hash@, r@, n as int),
{
    let (head, _) = hash.split_at(n);
    head.to_owned()
}

impl LocalBlobBackend {
    /// The blob directory.
    pub closed spec fn root_dir(&self) -> Seq<char> {
        self.blob_root@
    }

    /// The temp-file directory.
    pub closed spec fn temp_dir(&self) -> Seq<char> {
        self.temp_root@
    }

    /// The read-ahead depth.
    pub closed spec fn prefetch_depth(&self) -> usize {
        self.read_prefetch
    }

    /// The backend rooted at `storage_root`: blobs under `.blobs`, temp
    /// files under `.dedup_temp`, with the read-ahead depth of `prefetch`
    /// (the operator's override text, if any).
    pub fn new(storage_root: &str, prefetch: Option<&str>) -> (b: Self)
        ensures
            b.root_dir() == path_push(storage_root@, ".blobs"@),
            b.temp_dir() == path_push(storage_root@, ".dedup_temp"@),
            b.prefetch_depth() == prefetch_of(
                match prefetch {
                    Some(t) => Some(t@),
                    None => None,
                },
            ),
    {
        let root = storage_root.to_owned();
        let read_prefetch = match prefetch {
            Some(t) => {
                let v = str_chars(t);
                match parse_u64(&v) {
                    Some(n) => if n == 0 {
                        1
                    } else if n <= usize::MAX as u64 {
                        n as usize
                    } else {
                        DEFAULT_LOCAL_READ_PREFETCH
                    },
                    None => DEFAULT_LOCAL_READ_PREFETCH,
                }
            },
            None => DEFAULT_LOCAL_READ_PREFETCH,
        };
        LocalBlobBackend {
            blob_root: push(&root, ".blobs"),
            temp_root: push(&root, ".dedup_temp"),
            read_prefetch,
        }
    }

    /// The blob directory.
    pub fn blob_root(&self) -> (r: &String)
        ensures
            r@ == self.root_dir(),
    {
        &self.blob_root
    }

    /// The temp-file directory.
    pub fn temp_root(&self) -> (r: &String)
        ensures
            r@ == self.temp_dir(),
    {
        &self.temp_root
    }

    /// Chunks read ahead by a chunked read.
    pub fn read_prefetch(&self) -> (n: usize)
        ensures
            n == self.prefetch_depth(),
    {
        self.read_prefetch
    }

    /// Where the blob of `hash` lives: `{blob_root}/{first two bytes}/{hash}.blob`.
    pub fn blob_path(&self, hash: &str) -> (r: String)
        requires
            hash.spec_bytes().len() >= 2,
            is_char_boundary(hash.spec_bytes(), 2),
        ensures
            exists|prefix: Seq<char>| #[trigger] is_hash_prefix(hash@, prefix, 2) && r@ == path_push(
                path_push(self.root_dir(), prefix),
                blob_file_name(hash@),
            ),
    {
        let prefix = byte_prefix(hash, 2);
        let dir = push(&self.blob_root, prefix.as_str());
        let r = push(&dir, blob_file_text(hash).as_str());
        assert(is_hash_prefix(hash@, prefix@, 2));
        r
    }
}

/// The bytes of `hash` naming its cache directory: two, or all of a
/// shorter hash.
pub open spec fn cache_prefix_len(hash: Seq<char>) -> int {
    if encode_utf8(hash).len() < 2 {
        encode_utf8(hash).len() as int
    } else {
        2
    }
}

/// Where the read-through cache keeps `hash`:
/// `{cache_dir}/{first two bytes, or all of a shorter hash}/{hash}.blob`.
pub fn cached_path_in(cache_dir: &str, hash: &str) -> (r: String)
    requires
        is_char_boundary(hash.spec_bytes(), cache_prefix_len(hash@)),
    ensures
        exists|prefix: Seq<char>|
            #[trigger] is_hash_prefix(hash@, prefix, cache_prefix_len(hash@)) && r@ == path_push(path_push(cache_dir@, prefix), blob_file_name(hash@)),
{
    let n = hash.as_bytes().len();
    let cut = if n < 2 { n } else { 2 };
    let prefix = byte_prefix(hash, cut);
    let dir_root = cache_dir.to_owned();
    let dir = push(&dir_root, prefix.as_str());
    let r = push(&dir, blob_file_text(hash).as_str());
    assert(is_hash_prefix(hash@, prefix@, cut as int));
    r
}

/// The read-through cache's settings.
#[derive(Debug, Clone)]
pub struct BlobCacheConfig {
    /// Directory where cached blobs are stored.
    pub cache_dir: String,
    /// Maximum total cache size in bytes.
    pub max_cache_bytes: u64,
}

/// The weight of a cached blob in the cache's byte budget: its size,
/// clamped to `1..=u32::MAX`.
pub fn cache_entry_weight(size: u64) -> (w: u32)
    ensures
        w == if size < 1 { 1 } else if size > u32::MAX { u32::MAX } else { size as u32 },
{
    if size < 1 {
        1
    } else if size > u32::MAX as u64 {
        u32::MAX
    } else {
        size as u32
    }
}

/// Bytes a cached range read takes from `start`: through the inclusive
/// `end`, or everything.
pub fn cached_range_len(start: u64, end: Option<u64>) -> (n: u64)
    requires
        end matches Some(e) ==> start <= e && e - start < u64::MAX,
    ensures
        n == match end {
            Some(e) => (e - start + 1) as u64,
            None => u64::MAX,
        },
{
    match end {
        Some(e) => e - start + 1,
        None => u64::MAX,
    }
}

/// Bytes a local range read takes from `start`: up to the exclusive `end`
/// (none when `end` is not past `start`), or everything.
pub fn local_range_len(start: u64, end: Option<u64>) -> (n: Option<u64>)
    ensures
        n == match end {
            Some(e) => Some(if e > start { (e - start) as u64 } else { 0 }),
            None => None,
        },
{
    match end {
        Some(e) => Some(if e > start { e - start } else { 0 }),
        None => None,
    }
}

/// How many paths each parallel fsync task takes so that at most
/// [`SYNC_SWEEP_CONCURRENCY`] tasks cover `n` paths.
pub fn sync_group_size(n: usize) -> (g: usize)
    requires
        n > 0,
    ensures
        g * SYNC_SWEEP_CONCURRENCY >= n,
        (g - 1) * SYNC_SWEEP_CONCURRENCY < n,
        g >= 1,
{
    let g = n / 16 + if n % 16 == 0 { 0 } else { 1 };
    assert(g * 16 >= n && (g - 1) * 16 < n) by (nonlinear_arith)
        requires
            n > 0,
            g == n / 16 + if n % 16 == 0 { 0int } else { 1int },
    ;
    g
}

/// `d` is the prefix directory of `hash` under `root`.
pub open spec fn prefix_dir_of(root: Seq<char>, hash: Seq<char>, d: Seq<char>) -> bool {
    exists|prefix: Seq<char>| #[trigger] is_hash_prefix(hash, prefix, 2) && d == path_push(root, prefix)
}

impl LocalBlobBackend {
    /// The directories whose entries a sync of the blobs of `hashes` must
    /// make durable: each prefix directory once, sorted.
    pub fn sync_dirs(&self, hashes: &Vec<String>) -> (r: Vec<String>)
        requires
            forall|k: int| 0 <= k < hashes@.len() ==> is_char_boundary(encode_utf8((#[trigger] hashes@[k])@), 2)
                && encode_utf8(hashes@[k]@).len() >= 2,
        ensures
            sorted_by_key(r@),
            string_views(r@).no_duplicates(),
            forall|d: Seq<char>| #[trigger] string_views(r@).contains(d) <==> exists|k: int|
                0 <= k < hashes@.len() && prefix_dir_of(self.root_dir(), (#[trigger] hashes@[k])@, d),
    {
        let mut dirs: Vec<String> = Vec::new();
        let mut i: usize = 0;
        while i < hashes.len()
            invariant
                i <= hashes@.len(),
                forall|k: int| 0 <= k < hashes@.len() ==> is_char_boundary(encode_utf8((#[trigger] hashes@[k])@), 2)
                    && encode_utf8(hashes@[k]@).len() >= 2,
                forall|d: Seq<char>| #[trigger] string_views(dirs@).contains(d) <==> exists|k: int|
                    0 <= k < i && prefix_dir_of(self.root_dir(), (#[trigger] hashes@[k])@, d),
            decreases hashes@.len() - i,
        {
            let ghost before = string_views(dirs@);
            let h = hashes[i].as_str();
            assert(is_char_boundary(encode_utf8(hashes@[i as int]@), 2));
            let prefix = byte_prefix(h, 2);
            let dir = push(&self.blob_root, prefix.as_str());
            assert(prefix_dir_of(self.root_dir(), h@, dir@)) by {
                assert(is_hash_prefix(h@, prefix@, 2));
            }
            dirs.push(dir);
            proof {
                assert(string_views(dirs@) =~= before.push(dir@));
                assert forall|d: Seq<char>| #[trigger] string_views(dirs@).contains(d) <==> exists|k: int|
                    0 <= k < i + 1 && prefix_dir_of(self.root_dir(), (#[trigger] hashes@[k])@, d) by {
                    crate::seq_facts::lemma_contains_drop_last(string_views(dirs@), d);
                    assert(string_views(dirs@).drop_last() =~= before);
                    if exists|k: int| 0 <= k < i + 1 && prefix_dir_of(self.root_dir(), (#[trigger] hashes@[k])@, d) {
                        let k = choose|k: int| 0 <= k < i + 1 && prefix_dir_of(self.root_dir(), (#[trigger] hashes@[k])@, d);
                        if k < i {
                            assert(before.contains(d));
                        } else {
                            lemma_prefix_unique(h@, d, dir@, self.blob_root@);
                        }
                    }
                    if d == dir@ {
                        assert(prefix_dir_of(self.root_dir(), hashes@[i as int]@, d));
                    }
                }
            }
            i += 1;
        }
        sorted_names(dirs)
    }
}

proof fn lemma_prefix_unique(hash: Seq<char>, d1: Seq<char>, d2: Seq<char>, root: Seq<char>)
    requires
        prefix_dir_of(root, hash, d1),
        prefix_dir_of(root, hash, d2),
    ensures
        d1 == d2,
{
    let p1 = choose|prefix: Seq<char>| #[trigger] is_hash_prefix(hash, prefix, 2) && d1 == path_push(root, prefix);
    let p2 = choose|prefix: Seq<char>| #[trigger] is_hash_prefix(hash, prefix, 2) && d2 == path_push(root, prefix);
    vstd::utf8::encode_utf8_decode_utf8(p1);
    vstd::utf8::encode_utf8_decode_utf8(p2);
}

/// The lowercase hexadecimal digit of `d`.
pub open spec fn hex_digit(d: int) -> char {
    if d < 10 {
        ((d + ('0' as int)) as char)
    } else {
        ((d - 10 + ('a' as int)) as char)
    }
}

fn hex_digit_exec(d: u8) -> (c: char)
    requires
        d < 16,
    ensures
        c == hex_digit(d as int),
{
    if d < 10 {
        assert(((d as int) + ('0' as int)) < 128);
        ((d + 48) as char)
    } else {
        assert(((d as int) - 10 + ('a' as int)) < 128);
        ((d - 10 + 97) as char)
    }
}

/// The 256 two-digit lowercase hexadecimal prefix directories, in order.
pub fn hex_prefixes() -> (r: Vec<String>)
    ensures
        r@.len() == 256,
        forall|i: int| 0 <= i < 256 ==> (#[trigger] r@[i])@ == seq![hex_digit(i / 16), hex_digit(i % 16)],
{
    let mut r: Vec<String> = Vec::new();
    let mut i: u32 = 0;
    while i < 256
        invariant
            i <= 256,
            r@.len() == i,
            forall|k: int| 0 <= k < i ==> (#[trigger] r@[k])@ == seq![hex_digit(k / 16), hex_digit(k % 16)],
        decreases 256 - i,
    {
        let mut s = String::new();
        push_char(&mut s, hex_digit_exec((i / 16) as u8));
        push_char(&mut s, hex_digit_exec((i % 16) as u8));
        assert(s@ =~= seq![hex_digit(i as int / 16), hex_digit(i as int % 16)]);
        r.push(s);
        i += 1;
    }
    r
}

/// The position of the last `.` of `name`, if any.
pub open spec fn last_dot(name: Seq<char>) -> Option<int> {
    if exists|k: int| 0 <= k < name.len() && name[k] == '.' {
        Some(choose|k: int| 0 <= k < name.len() && name[k] == '.' && forall|j: int| k < j < name.len() ==> name[j] != '.')
    } else {
        None
    }
}

/// The blob hash a cache file's name stands for: `{hash}.blob`, with a
/// non-empty stem before the last `.` (a name whose only dot leads it has
/// no extension).
pub open spec fn cached_blob_stem(name: Seq<char>) -> Option<Seq<char>> {
    match last_dot(name) {
        Some(k) => if k > 0 && name.skip(k + 1) == "blob"@ {
            Some(name.take(k))
        } else {
            None
        },
        None => None,
    }
}

/// The hash a file found in the cache directory holds, when it is a cached
/// blob.
pub fn cached_blob_hash(name: &str) -> (r: Option<String>)
    ensures
        match cached_blob_stem(name@) {
            Some(s) => r matches Some(h) && h@ == s,
            None => r is None,
        },
{
    let v = str_chars(name);
    let mut k: usize = v.len();
    while k > 0 && v[k - 1] != '.'
        invariant
            k <= v@.len(),
            forall|j: int| k <= j < v@.len() ==> v@[j] != '.',
        decreases k,
    {
        k -= 1;
    }
    if k == 0 {
        proof {
            assert(!exists|j: int| 0 <= j < v@.len() && v@[j] == '.');
        }
        return None;
    }
    let dot = k - 1;
    proof {
        let w = choose|w: int| 0 <= w < v@.len() && v@[w] == '.' && forall|j: int| w < j < v@.len() ==> v@[j] != '.';
        assert(v@[dot as int] == '.');
        assert(w == dot) by {
            if w < dot {
                assert(v@[dot as int] != '.');
            } else if w > dot {
                assert(v@[w] != '.');
            }
        }
    }
    let ext = crate::text::string_from_chars(&v, dot + 1, v.len());
    let ev = str_chars(ext.as_str());
    let blob = str_chars("blob");
    assert(ev@ =~= v@.skip(dot + 1));
    if dot > 0 && crate::text::chars_equal(&ev, &blob) {
        let stem = crate::text::string_from_chars(&v, 0, dot);
        assert(stem@ =~= v@.take(dot as int));
        Some(stem)
    } else {
        None
    }
}

} // verus!
