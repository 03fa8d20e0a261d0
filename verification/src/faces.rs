//! Face indexing around the detector: the detector's output layout, which
//! file events trigger indexing, where an indexed blob is read from, and the
//! inert analyzers used when no model or no frame extractor is configured,
//! and what the video frame extractor accepts and makes of an ffmpeg run.
//! (The detector and its geometry compute in floating point and run outside
//! this library.)

use vstd::prelude::*;
use vstd::string::StringSliceAdditionalSpecFns;
use vstd::utf8::is_char_boundary;
use crate::blob_layout::{cache_prefix_len, cached_path_in, blob_file_name, is_hash_prefix};
use crate::fs_path::path_push;
use crate::text::{push_text, str_chars, string_from_chars};
use crate::webdav_lock::{trim_chars, trimmed};
use crate::tokens::{parse_id, uuid_value};

verus! {

/// How the SCRFD detector lays out its outputs: feature maps per output
/// kind, anchors per location, and whether landmarks are produced.
#[derive(Debug, Clone, Copy, PartialEq, Eq)]
pub struct ScrfdLayout {
    pub fmc: usize,
    pub num_anchors: u32,
    pub use_kps: bool,
}

pub open spec fn layout_for(n: usize) -> Option<ScrfdLayout> {
    if n == 6 {
        Some(ScrfdLayout { fmc: 3, num_anchors: 2, use_kps: false })
    } else if n == 9 {
        Some(ScrfdLayout { fmc: 3, num_anchors: 2, use_kps: true })
    } else if n == 10 {
        Some(ScrfdLayout { fmc: 5, num_anchors: 1, use_kps: false })
    } else if n == 15 {
        Some(ScrfdLayout { fmc: 5, num_anchors: 1, use_kps: true })
    } else {
        None
    }
}

impl ScrfdLayout {
    /// The layout of a detector with `n` outputs (scores, boxes and maybe
    /// landmarks per stride); `None` for an unknown model.
    pub fn from_num_outputs(n: usize) -> (r: Option<ScrfdLayout>)
        ensures
            r == layout_for(n),
    {
        match n {
            6 => Some(ScrfdLayout { fmc: 3, num_anchors: 2, use_kps: false }),
            9 => Some(ScrfdLayout { fmc: 3, num_anchors: 2, use_kps: true }),
            10 => Some(ScrfdLayout { fmc: 5, num_anchors: 1, use_kps: false }),
            15 => Some(ScrfdLayout { fmc: 5, num_anchors: 1, use_kps: true }),
            _ => None,
        }
    }

    /// The strides of the feature maps: 8/16/32, plus 64/128 for five maps.
    pub fn strides(&self) -> (s: Vec<u32>)
        ensures
            s@ == if self.fmc == 3 { seq![8u32, 16, 32] } else { seq![8u32, 16, 32, 64, 128] },
    {
        if self.fmc == 3 {
            let v = vec![8u32, 16, 32];
            assert(v@ =~= seq![8u32, 16, 32]);
            v
        } else {
            let v = vec![8u32, 16, 32, 64, 128];
            assert(v@ =~= seq![8u32, 16, 32, 64, 128]);
            v
        }
    }
}

/// A failure of the face pipeline, with its description.
#[derive(Debug, Clone)]
pub enum FaceError {
    Internal { context: String, message: String },
}

/// A face-pipeline failure from an error's text.
pub fn dom(message: String) -> (e: FaceError)
    ensures
        e matches FaceError::Internal { context, message: m } && context@ == "Faces"@ && m@ == message@,
{
    let mut context = String::new();
    push_text(&mut context, "Faces");
    assert(context@ =~= "Faces"@);
    FaceError::Internal { context, message }
}

/// Files whose content type starts with `image/` are indexed.
pub open spec fn image_type(content_type: Seq<char>) -> bool {
    content_type.len() >= 6 && content_type.take(6) == "image/"@
}

pub fn is_image(content_type: &str) -> (b: bool)
    ensures
        b == image_type(content_type@),
{
    let v = str_chars(content_type);
    let p = str_chars("image/");
    proof {
        reveal_strlit("image/");
    }
    if v.len() < 6 {
        return false;
    }
    let head = crate::text::string_from_chars(&v, 0, 6);
    let hv = str_chars(head.as_str());
    assert(hv@ =~= v@.take(6));
    crate::text::chars_equal(&hv, &p)
}

/// The file events the indexer reacts to.
#[derive(Debug, Clone, Copy, PartialEq, Eq)]
pub enum FileEvent {
    /// A new file; `is_new_blob` tells whether its content was new.
    Created { is_new_blob: bool },
    Copied,
    Updated,
    Deleted,
}

/// An indexing job for one file.
#[derive(Debug, Clone, Copy, PartialEq, Eq)]
pub struct IndexJob {
    pub file_id: u128,
    /// Copy the faces already found on other files with the same content,
    /// when there are any, instead of running the detector.
    pub reuse_dedup: bool,
    /// Drop the file's faces before indexing.
    pub delete_first: bool,
}

/// The job an event asks for: only images are indexed, only while the
/// analyzer is ready, and only for a file id that parses. New content is
/// analyzed; duplicated content reuses the faces of its twins; an update
/// replaces the file's faces.
pub open spec fn index_job_of(event: FileEvent, content_type: Seq<char>, analyzer_ready: bool, file_id: Option<u128>) -> Option<IndexJob> {
    if !image_type(content_type) || !analyzer_ready || file_id is None {
        None
    } else {
        match event {
            FileEvent::Created { is_new_blob } => Some(IndexJob { file_id: file_id->0, reuse_dedup: !is_new_blob, delete_first: false }),
            FileEvent::Copied => Some(IndexJob { file_id: file_id->0, reuse_dedup: true, delete_first: false }),
            FileEvent::Updated => Some(IndexJob { file_id: file_id->0, reuse_dedup: false, delete_first: true }),
            FileEvent::Deleted => None,
        }
    }
}

pub fn index_job(event: FileEvent, content_type: &str, analyzer_ready: bool, file_id: &str) -> (j: Option<IndexJob>)
    ensures
        j == index_job_of(event, content_type@, analyzer_ready, uuid_value(file_id@)),
{
    if !is_image(content_type) || !analyzer_ready {
        return None;
    }
    match parse_id(file_id) {
        None => None,
        Some(id) => match event {
            FileEvent::Created { is_new_blob } => Some(IndexJob { file_id: id, reuse_dedup: !is_new_blob, delete_first: false }),
            FileEvent::Copied => Some(IndexJob { file_id: id, reuse_dedup: true, delete_first: false }),
            FileEvent::Updated => Some(IndexJob { file_id: id, reuse_dedup: false, delete_first: true }),
            FileEvent::Deleted => None,
        },
    }
}

/// Where the indexer reads a blob: `{blob_root}/{first two bytes}/{hash}.blob`
/// (the whole hash as directory when it is shorter).
pub fn face_blob_path(blob_root: &str, hash: &str) -> (r: String)
    requires
        is_char_boundary(hash.spec_bytes(), cache_prefix_len(hash@)),
    ensures
        exists|prefix: Seq<char>|
            #[trigger] is_hash_prefix(hash@, prefix, cache_prefix_len(hash@)) && r@ == path_push(path_push(blob_root@, prefix), blob_file_name(hash@)),
{
    cached_path_in(blob_root, hash)
}

/// Of the faces already found on files with the same content, those of
/// other files: they are copied onto `file_id`.
pub fn reusable_faces(peer_file_ids: &Vec<u128>, file_id: u128) -> (r: Vec<usize>)
    ensures
        forall|k: int| 0 <= k < r@.len() ==> (#[trigger] r@[k]) < peer_file_ids@.len() && peer_file_ids@[r@[k] as int] != file_id,
        forall|k: int, l: int| 0 <= k < l < r@.len() ==> r@[k] < r@[l],
        forall|i: int| 0 <= i < peer_file_ids@.len() && peer_file_ids@[i] != file_id ==> #[trigger] r@.contains(i as usize),
{
    let mut r: Vec<usize> = Vec::new();
    let mut i: usize = 0;
    while i < peer_file_ids.len()
        invariant
            i <= peer_file_ids@.len(),
            forall|k: int| 0 <= k < r@.len() ==> (#[trigger] r@[k]) < i && peer_file_ids@[r@[k] as int] != file_id,
            forall|k: int, l: int| 0 <= k < l < r@.len() ==> r@[k] < r@[l],
            forall|j: int| 0 <= j < i && peer_file_ids@[j] != file_id ==> #[trigger] r@.contains(j as usize),
        decreases peer_file_ids@.len() - i,
    {
        if peer_file_ids[i] != file_id {
            let ghost before = r@;
            r.push(i);
            proof {
                assert(r@ == before.push(i));
                assert forall|j: int| 0 <= j < i + 1 && peer_file_ids@[j] != file_id implies #[trigger] r@.contains(j as usize) by {
                    if j < i {
                        assert(before.contains(j as usize));
                        let k = choose|k: int| 0 <= k < before.len() && before[k] == j as usize;
                        assert(r@[k] == j as usize);
                    } else {
                        assert(r@[r@.len() - 1] == j as usize);
                    }
                }
            }
        }
        i += 1;
    }
    r
}

/// The analyzer used when no detection model is configured: never ready,
/// finds nothing.
#[derive(Debug, Default, Clone, Copy, PartialEq, Eq)]
pub struct NoopFaceAnalyzer;

impl NoopFaceAnalyzer {
    pub fn is_ready(&self) -> (b: bool)
        ensures
            !b,
    {
        false
    }

    /// The faces found in an image: none.
    pub fn analyze(&self, image_bytes: &[u8]) -> (r: Result<Vec<u128>, FaceError>)
        ensures
            r matches Ok(v) && v@.len() == 0,
    {
        Ok(Vec::new())
    }
}

/// Why a video frame could not be extracted.
#[derive(Debug, Clone)]
pub enum VideoFrameError {
    Internal { context: String, message: String },
}

/// The frame extractor used when no ffmpeg is available: supports no video
/// type, and every extraction fails.
#[derive(Debug, Default, Clone, Copy, PartialEq, Eq)]
pub struct NoopVideoFrameService;

impl NoopVideoFrameService {
    pub fn is_supported_video(&self, mime_type: &str) -> (b: bool)
        ensures
            !b,
    {
        false
    }

    pub fn extract_frame(&self, path: &str) -> (r: Result<Vec<u8>, VideoFrameError>)
        ensures
            r matches Err(VideoFrameError::Internal { context, message }) && context@ == "VideoFrame"@
                && message@ == "video thumbnail extraction is disabled (no ffmpeg)"@,
    {
        let mut context = String::new();
        push_text(&mut context, "VideoFrame");
        let mut message = String::new();
        push_text(&mut message, "video thumbnail extraction is disabled (no ffmpeg)");
        assert(context@ =~= "VideoFrame"@);
        assert(message@ =~= "video thumbnail extraction is disabled (no ffmpeg)"@);
        Err(VideoFrameError::Internal { context, message })
    }
}

/// The PNG file signature.
pub open spec fn png_signature() -> Seq<u8> {
    seq![0x89u8, 0x50u8, 0x4Eu8, 0x47u8, 0x0Du8, 0x0Au8, 0x1Au8, 0x0Au8]
}

/// The frame extractor takes every `video/` type and lets extraction fail
/// for the rare container that does not decode.
pub fn is_video_mime(mime_type: &str) -> (b: bool)
    ensures
        b == (mime_type@.len() >= 6 && mime_type@.take(6) == "video/"@),
{
    proof {
        reveal_strlit("video/");
    }
    let v = str_chars(mime_type);
    let p = str_chars("video/");
    if v.len() < 6 {
        return false;
    }
    let mut i: usize = 0;
    while i < 6
        invariant
            i <= 6,
            v@.len() >= 6,
            p@.len() == 6,
            v@ == mime_type@,
            p@ == "video/"@,
            forall|k: int| 0 <= k < i ==> v@[k] == p@[k],
        decreases 6 - i,
    {
        if v[i] != p[i] {
            assert(mime_type@.take(6)[i as int] != "video/"@[i as int]);
            return false;
        }
        i += 1;
    }
    assert(mime_type@.take(6) =~= "video/"@);
    true
}

/// The still frame an ffmpeg run produced: its standard output when the run
/// succeeded and the output is a PNG; an error naming the exit status and
/// the trimmed standard error when the run failed, or saying that no frame
/// came out when the output is not a PNG.
pub fn frame_from_run(success: bool, status: &str, stderr: &str, stdout: Vec<u8>) -> (r: Result<Vec<u8>, VideoFrameError>)
    ensures
        !success ==> (r matches Err(VideoFrameError::Internal { context, message }) && context@ == "VideoFrame"@
            && message@ == "ffmpeg exited "@ + status@ + ": "@ + trimmed(stderr@)),
        success && !(stdout@.len() >= 8 && stdout@.take(8) == png_signature()) ==> (r matches Err(
            VideoFrameError::Internal { context, message },
        ) && context@ == "VideoFrame"@ && message@ == "ffmpeg produced no decodable frame"@),
        success && stdout@.len() >= 8 && stdout@.take(8) == png_signature() ==> r == Ok::<Vec<u8>, VideoFrameError>(stdout),
{
    let mut context = String::new();
    push_text(&mut context, "VideoFrame");
    assert(context@ =~= "VideoFrame"@);
    if !success {
        let e = str_chars(stderr);
        let t = trim_chars(&e, 0, e.len());
        assert(e@.subrange(0, e@.len() as int) =~= stderr@);
        let tail = string_from_chars(&t, 0, t.len());
        assert(t@.subrange(0, t@.len() as int) =~= t@);
        let mut message = String::new();
        push_text(&mut message, "ffmpeg exited ");
        push_text(&mut message, status);
        push_text(&mut message, ": ");
        push_text(&mut message, tail.as_str());
        return Err(VideoFrameError::Internal { context, message });
    }
    let is_png = stdout.len() >= 8 && stdout[0] == 0x89 && stdout[1] == 0x50 && stdout[2] == 0x4E
        && stdout[3] == 0x47 && stdout[4] == 0x0D && stdout[5] == 0x0A && stdout[6] == 0x1A
        && stdout[7] == 0x0A;
    if stdout.len() >= 8 {
        assert(is_png == (stdout@.take(8) == png_signature())) by {
            if is_png {
                assert(stdout@.take(8) =~= png_signature());
            }
            if stdout@.take(8) == png_signature() {
                assert(stdout@.take(8)[0] == png_signature()[0]);
                assert(stdout@.take(8)[1] == png_signature()[1]);
                assert(stdout@.take(8)[2] == png_signature()[2]);
                assert(stdout@.take(8)[3] == png_signature()[3]);
                assert(stdout@.take(8)[4] == png_signature()[4]);
                assert(stdout@.take(8)[5] == png_signature()[5]);
                assert(stdout@.take(8)[6] == png_signature()[6]);
                assert(stdout@.take(8)[7] == png_signature()[7]);
            }
        }
    }
    if !is_png {
        let mut message = String::new();
        push_text(&mut message, "ffmpeg produced no decodable frame");
        assert(message@ =~= "ffmpeg produced no decodable frame"@);
        return Err(VideoFrameError::Internal { context, message });
    }
    Ok(stdout)
}

} // verus!
