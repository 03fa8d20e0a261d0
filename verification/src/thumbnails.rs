//! Thumbnail policy: the sizes and formats kept per blob, where each
//! thumbnail lives, which uploads get thumbnails, and the decode guard that
//! keeps a single huge image from exhausting memory. (Decoding, resizing
//! and encoding pixels is done by the image codecs, outside this library.)

use vstd::prelude::*;
use crate::decimal::{decimal_text, parse_u64, parsed_u64, push_decimal};
use crate::fs_path::{path_push, push};
use crate::text::{chars_equal, push_char, push_text, str_chars};

verus! {

/// Thumbnail sizes.
#[derive(Debug, Clone, Copy, PartialEq, Eq, Hash)]
pub enum ThumbnailSize {
    /// Small icon for file listings (150x150).
    Icon,
    /// Medium preview for gallery view (400x400).
    Preview,
    /// Large preview for detail view (800x800).
    Large,
}

pub open spec fn max_dimension_of(s: ThumbnailSize) -> u32 {
    match s {
        ThumbnailSize::Icon => 150,
        ThumbnailSize::Preview => 400,
        ThumbnailSize::Large => 800,
    }
}

pub open spec fn dir_name_of(s: ThumbnailSize) -> Seq<char> {
    match s {
        ThumbnailSize::Icon => "icon"@,
        ThumbnailSize::Preview => "preview"@,
        ThumbnailSize::Large => "large"@,
    }
}

impl ThumbnailSize {
    /// The longest side of a thumbnail of this size.
    pub fn max_dimension(&self) -> (d: u32)
        ensures
            d == max_dimension_of(*self),
    {
        match self {
            ThumbnailSize::Icon => 150,
            ThumbnailSize::Preview => 400,
            ThumbnailSize::Large => 800,
        }
    }

    /// The directory of this size's thumbnails.
    pub fn dir_name(&self) -> (n: &'static str)
        ensures
            n@ == dir_name_of(*self),
    {
        match self {
            ThumbnailSize::Icon => "icon",
            ThumbnailSize::Preview => "preview",
            ThumbnailSize::Large => "large",
        }
    }

    /// Every size, smallest first.
    pub fn all() -> (v: Vec<ThumbnailSize>)
        ensures
            v@ == seq![ThumbnailSize::Icon, ThumbnailSize::Preview, ThumbnailSize::Large],
    {
        let v = vec![ThumbnailSize::Icon, ThumbnailSize::Preview, ThumbnailSize::Large];
        assert(v@ =~= seq![ThumbnailSize::Icon, ThumbnailSize::Preview, ThumbnailSize::Large]);
        v
    }
}

/// Thumbnail encodings: WebP first, JPEG as the fallback.
#[derive(Debug, Clone, Copy, PartialEq, Eq, Hash)]
pub enum ThumbnailFormat {
    Webp,
    Jpeg,
}

pub open spec fn ext_of(f: ThumbnailFormat) -> Seq<char> {
    match f {
        ThumbnailFormat::Webp => "webp"@,
        ThumbnailFormat::Jpeg => "jpg"@,
    }
}

impl ThumbnailFormat {
    /// The file extension of this format.
    pub fn ext(&self) -> (e: &'static str)
        ensures
            e@ == ext_of(*self),
    {
        match self {
            ThumbnailFormat::Webp => "webp",
            ThumbnailFormat::Jpeg => "jpg",
        }
    }
}

/// MIME types thumbnails are made for.
pub open spec fn supported_image(mime: Seq<char>) -> bool {
    ||| mime == "image/jpeg"@
    ||| mime == "image/jpg"@
    ||| mime == "image/png"@
    ||| mime == "image/gif"@
    ||| mime == "image/webp"@
}

fn text_eq(v: &Vec<char>, lit: &str) -> (b: bool)
    ensures
        b == (v@ == lit@),
{
    let w = str_chars(lit);
    chars_equal(v, &w)
}

/// Whether thumbnails are made for this MIME type.
pub fn is_supported_image(mime_type: &str) -> (b: bool)
    ensures
        b == supported_image(mime_type@),
{
    let v = str_chars(mime_type);
    text_eq(&v, "image/jpeg") || text_eq(&v, "image/jpg") || text_eq(&v, "image/png")
        || text_eq(&v, "image/gif") || text_eq(&v, "image/webp")
}

/// Whether `data` starts with the JPEG start-of-image marker.
pub fn is_jpeg(data: &[u8]) -> (b: bool)
    ensures
        b == (data@.len() >= 3 && data@[0] == 0xFF && data@[1] == 0xD8 && data@[2] == 0xFF),
{
    data.len() >= 3 && data[0] == 0xFF && data[1] == 0xD8 && data[2] == 0xFF
}

/// `{hash}.{ext}`.
pub open spec fn thumbnail_file_name(hash: Seq<char>, f: ThumbnailFormat) -> Seq<char> {
    hash.push('.') + ext_of(f)
}

/// Where the thumbnail of a blob lives: `{root}/{size dir}/{hash}.{ext}`,
/// shared by every file with that content.
pub fn thumbnail_path(root: &String, blob_hash: &str, size: ThumbnailSize, format: ThumbnailFormat) -> (p: String)
    ensures
        p@ == path_push(path_push(root@, dir_name_of(size)), thumbnail_file_name(blob_hash@, format)),
{
    let dir = push(root, size.dir_name());
    let mut name = String::new();
    push_text(&mut name, blob_hash);
    push_char(&mut name, '.');
    push_text(&mut name, format.ext());
    push(&dir, name.as_str())
}

/// Every thumbnail file a blob may have: each size in WebP and in JPEG.
pub fn blob_thumbnail_paths(root: &String, blob_hash: &str) -> (v: Vec<String>)
    ensures
        v@.len() == 6,
        forall|k: int|
            0 <= k < 6 ==> (#[trigger] v@[k])@ == path_push(
                path_push(root@, dir_name_of(seq![ThumbnailSize::Icon, ThumbnailSize::Preview, ThumbnailSize::Large][k / 2])),
                thumbnail_file_name(blob_hash@, if k % 2 == 0 { ThumbnailFormat::Webp } else { ThumbnailFormat::Jpeg }),
            ),
{
    let sizes = ThumbnailSize::all();
    let mut v: Vec<String> = Vec::new();
    let mut i: usize = 0;
    while i < 3
        invariant
            i <= 3,
            sizes@ == seq![ThumbnailSize::Icon, ThumbnailSize::Preview, ThumbnailSize::Large],
            v@.len() == 2 * i,
            forall|k: int|
                0 <= k < 2 * i ==> (#[trigger] v@[k])@ == path_push(
                    path_push(root@, dir_name_of(seq![ThumbnailSize::Icon, ThumbnailSize::Preview, ThumbnailSize::Large][k / 2])),
                    thumbnail_file_name(blob_hash@, if k % 2 == 0 { ThumbnailFormat::Webp } else { ThumbnailFormat::Jpeg }),
                ),
        decreases 3 - i,
    {
        v.push(thumbnail_path(root, blob_hash, sizes[i], ThumbnailFormat::Webp));
        v.push(thumbnail_path(root, blob_hash, sizes[i], ThumbnailFormat::Jpeg));
        proof {
            assert((2 * i as int) / 2 == i as int);
            assert((2 * i as int + 1) / 2 == i as int);
            assert((2 * i as int) % 2 == 0);
            assert((2 * i as int + 1) % 2 == 1);
        }
        i += 1;
    }
    v
}

/// Images larger than this many pixels are not decoded.
pub const MAX_DECODE_PIXELS: u64 = 50_000_000;

/// Why a thumbnail was not produced.
#[derive(Debug, Clone)]
pub enum ThumbnailError {
    IoError(String),
    ImageError(String),
    TaskError(String),
    UnsupportedFormat,
}

/// The refusal text for an image of `w`×`h` pixels.
pub open spec fn too_large_message(w: u64, h: u64) -> Seq<char> {
    "Image too large for thumbnail: "@ + decimal_text(w as nat) + "×"@ + decimal_text(h as nat)
        + " ("@ + decimal_text(((w * h) / 1_000_000) as nat) + " MP, max 50000000)"@
}

/// Refuse to decode an image of `w`×`h` pixels when it has more than
/// [`MAX_DECODE_PIXELS`] pixels.
pub fn check_decode_size(w: u32, h: u32) -> (r: Result<(), ThumbnailError>)
    ensures
        r is Ok <==> (w as int) * (h as int) <= MAX_DECODE_PIXELS,
        r matches Err(e) ==> (e matches ThumbnailError::ImageError(m) && m@ == too_large_message(w as u64, h as u64)),
{
    let wl = w as u64;
    let hl = h as u64;
    assert(wl * hl <= u64::MAX) by (nonlinear_arith)
        requires
            wl <= u32::MAX,
            hl <= u32::MAX,
    ;
    let pixels = wl * hl;
    if pixels > MAX_DECODE_PIXELS {
        let mut m = String::new();
        push_text(&mut m, "Image too large for thumbnail: ");
        push_decimal(&mut m, wl);
        push_text(&mut m, "×");
        push_decimal(&mut m, hl);
        push_text(&mut m, " (");
        push_decimal(&mut m, pixels / 1_000_000);
        push_text(&mut m, " MP, max 50000000)");
        return Err(ThumbnailError::ImageError(m));
    }
    Ok(())
}

/// The resampling filters a thumbnail is resized with.
#[derive(Debug, Clone, Copy, PartialEq, Eq)]
pub enum ResizeFilter {
    Bilinear,
    CatmullRom,
    Lanczos3,
}

/// The filter a size is resized with: bilinear for the small icon, Lanczos3
/// for the larger sizes, and a smooth bicubic whenever the target is larger
/// than the source on either axis (Lanczos3 rings when it upscales).
pub open spec fn resize_filter_of(size: ThumbnailSize, src_w: u32, src_h: u32, dst_w: u32, dst_h: u32) -> ResizeFilter {
    if dst_w > src_w || dst_h > src_h {
        ResizeFilter::CatmullRom
    } else {
        match size {
            ThumbnailSize::Icon => ResizeFilter::Bilinear,
            _ => ResizeFilter::Lanczos3,
        }
    }
}

pub fn resize_filter(size: ThumbnailSize, src_w: u32, src_h: u32, dst_w: u32, dst_h: u32) -> (f: ResizeFilter)
    ensures
        f == resize_filter_of(size, src_w, src_h, dst_w, dst_h),
{
    if dst_w > src_w || dst_h > src_h {
        ResizeFilter::CatmullRom
    } else {
        match size {
            ThumbnailSize::Icon => ResizeFilter::Bilinear,
            _ => ResizeFilter::Lanczos3,
        }
    }
}

/// A client-supplied thumbnail is stored as it came when it is a JPEG (its
/// first two bytes are the start-of-image marker) whose dimensions, as read
/// from its header, fit the size; anything else is decoded and re-encoded.
pub fn external_thumbnail_ready(data: &[u8], dims: Option<(u32, u32)>, size: ThumbnailSize) -> (b: bool)
    ensures
        b == (data@.len() >= 2 && data@[0] == 0xFF && data@[1] == 0xD8 && match dims {
            Some((w, h)) => w <= max_dimension_of(size) && h <= max_dimension_of(size),
            None => false,
        }),
{
    if data.len() < 2 || data[0] != 0xFF || data[1] != 0xD8 {
        return false;
    }
    match dims {
        Some((w, h)) => {
            let max = size.max_dimension();
            w <= max && h <= max
        },
        None => false,
    }
}

/// What a newly created file triggers.
#[derive(Debug, Clone, Copy, PartialEq, Eq)]
pub enum ThumbnailJob {
    /// Nothing: the blob already has its thumbnails, or the type has none.
    Skip,
    /// Render every size from the image.
    RenderImage,
    /// Extract a video frame and render every size from it.
    RenderVideoFrame,
}

/// Thumbnails are keyed by blob, so only a new blob needs them: images are
/// rendered, videos through a frame when frame extraction supports them.
pub open spec fn created_job_of(is_new_blob: bool, content_type: Seq<char>, video_supported: bool) -> ThumbnailJob {
    if !is_new_blob {
        ThumbnailJob::Skip
    } else if supported_image(content_type) {
        ThumbnailJob::RenderImage
    } else if video_supported {
        ThumbnailJob::RenderVideoFrame
    } else {
        ThumbnailJob::Skip
    }
}

pub fn on_file_created(is_new_blob: bool, content_type: &str, video_supported: bool) -> (j: ThumbnailJob)
    ensures
        j == created_job_of(is_new_blob, content_type@, video_supported),
{
    if !is_new_blob {
        ThumbnailJob::Skip
    } else if is_supported_image(content_type) {
        ThumbnailJob::RenderImage
    } else if video_supported {
        ThumbnailJob::RenderVideoFrame
    } else {
        ThumbnailJob::Skip
    }
}

/// An updated image has its cached thumbnails dropped and re-rendered.
pub fn on_file_updated(content_type: &str) -> (rerender: bool)
    ensures
        rerender == supported_image(content_type@),
{
    is_supported_image(content_type)
}

/// A render is skipped when every size already exists on disk.
pub fn render_needed(existing: &Vec<bool>) -> (b: bool)
    ensures
        b == exists|k: int| 0 <= k < existing@.len() && !#[trigger] existing@[k],
{
    let mut i: usize = 0;
    while i < existing.len()
        invariant
            i <= existing@.len(),
            forall|k: int| 0 <= k < i ==> #[trigger] existing@[k],
        decreases existing@.len() - i,
    {
        if !existing[i] {
            return true;
        }
        i += 1;
    }
    false
}

/// Parallel decodes allowed: the operator's override (a count of at least
/// 1), else the machine's parallelism but at least 2.
pub open spec fn decode_limit_of(setting: Option<Seq<char>>, cpus: usize) -> usize {
    match setting {
        Some(t) => match parsed_u64(t) {
            Some(n) => if n >= 1 && n <= usize::MAX {
                n as usize
            } else if cpus >= 2 {
                cpus
            } else {
                2
            },
            None => if cpus >= 2 {
                cpus
            } else {
                2
            },
        },
        None => if cpus >= 2 {
            cpus
        } else {
            2
        },
    }
}

pub fn max_concurrent_decodes(setting: Option<&str>, cpus: usize) -> (n: usize)
    ensures
        n == decode_limit_of(
            match setting {
                Some(t) => Some(t@),
                None => None,
            },
            cpus,
        ),
{
    match setting {
        Some(t) => {
            let v = str_chars(t);
            match parse_u64(&v) {
                Some(n) => if n >= 1 && n <= usize::MAX as u64 {
                    return n as usize;
                },
                None => {},
            }
        },
        None => {},
    }
    if cpus >= 2 {
        cpus
    } else {
        2
    }
}

/// Counters of the in-memory thumbnail cache.
#[derive(Debug, Clone, Copy, PartialEq, Eq)]
pub struct ThumbnailStats {
    pub cached_thumbnails: usize,
    pub cache_size_bytes: usize,
    pub max_cache_bytes: usize,
}

/// Thumbnails are made for exactly five MIME types: JPEG (under both of its
/// names), PNG, GIF and WebP. A new blob of one of them is rendered as an
/// image, whether or not videos are supported; a new blob of any other type
/// is never rendered as an image; a blob already known renders nothing.
pub proof fn law_thumbnail_types()
    ensures
        Set::new(|m: Seq<char>| supported_image(m)) == set![
            "image/jpeg"@,
            "image/jpg"@,
            "image/png"@,
            "image/gif"@,
            "image/webp"@,
        ],
        forall|m: Seq<char>, video: bool|
            supported_image(m) ==> #[trigger] created_job_of(true, m, video) == ThumbnailJob::RenderImage,
        forall|m: Seq<char>, video: bool|
            !supported_image(m) ==> #[trigger] created_job_of(true, m, video) != ThumbnailJob::RenderImage,
        forall|m: Seq<char>, video: bool| #[trigger] created_job_of(false, m, video) == ThumbnailJob::Skip,
{
    assert(Set::new(|m: Seq<char>| supported_image(m)) =~= set![
        "image/jpeg"@,
        "image/jpg"@,
        "image/png"@,
        "image/gif"@,
        "image/webp"@,
    ]);
}

/// The three sizes bound the longest side at 150, 400 and 800 pixels, each
/// larger than the one before, and each lives in a directory of its own.
pub proof fn law_thumbnail_sizes()
    ensures
        max_dimension_of(ThumbnailSize::Icon) == 150,
        max_dimension_of(ThumbnailSize::Preview) == 400,
        max_dimension_of(ThumbnailSize::Large) == 800,
        forall|a: ThumbnailSize, b: ThumbnailSize| a != b ==> #[trigger] dir_name_of(a) != #[trigger] dir_name_of(b),
{
    reveal_strlit("icon");
    reveal_strlit("preview");
    reveal_strlit("large");
    assert("icon"@[0] != "preview"@[0]);
    assert("icon"@.len() != "large"@.len());
    assert("preview"@.len() != "large"@.len());
}

/// A thumbnail is never upscaled with Lanczos3 (it rings): any target
/// larger than its source on either axis is resized with the smooth bicubic
/// filter; otherwise the icon uses bilinear and the larger sizes Lanczos3.
pub proof fn law_resize_filter_choice(size: ThumbnailSize, src_w: u32, src_h: u32, dst_w: u32, dst_h: u32)
    ensures
        (dst_w > src_w || dst_h > src_h) ==> resize_filter_of(size, src_w, src_h, dst_w, dst_h)
            == ResizeFilter::CatmullRom,
        (dst_w <= src_w && dst_h <= src_h && size == ThumbnailSize::Icon) ==> resize_filter_of(
            size,
            src_w,
            src_h,
            dst_w,
            dst_h,
        ) == ResizeFilter::Bilinear,
        (dst_w <= src_w && dst_h <= src_h && size != ThumbnailSize::Icon) ==> resize_filter_of(
            size,
            src_w,
            src_h,
            dst_w,
            dst_h,
        ) == ResizeFilter::Lanczos3,
{
}

} // verus!
