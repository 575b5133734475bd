//! Video and GIF payloads: format detection by magic bytes, and GIF frame
//! extraction through the GIF decoder.
use vstd::prelude::*;
use vstd::slice::slice_to_vec;
use crate::pkg_parser::codecs::{gif_decoding, decode_gif};
use crate::pkg_parser::tex_parser::{raw_to_png, spec_raw_to_png, spec_match_signature};
use crate::pkg_parser::text::{frame_file_name, spec_frame_file_name};
use crate::pkg_parser::wire::lemma_bytes_deep_view;

verus! {

broadcast use lemma_bytes_deep_view;

/// Detected video or GIF format.
#[derive(Debug, Clone, PartialEq)]
pub enum VideoFormat {
    Mp4,
    WebM,
    Gif,
    Unknown(String),
}

/// Parsed video or GIF data from a package file.
#[derive(Debug, Clone)]
pub struct Video {
    pub data: Vec<u8>,
    pub format: VideoFormat,
    pub dimensions: Option<(u32, u32)>,
    pub frame_count: Option<u32>,
}

/// The mathematical content of a [`VideoFormat`].
pub enum VideoFormatModel {
    Mp4,
    WebM,
    Gif,
    Unknown(Seq<char>),
}

/// The mathematical content of a [`Video`].
pub struct VideoModel {
    pub data: Seq<u8>,
    pub format: VideoFormatModel,
    pub dimensions: Option<(u32, u32)>,
    pub frame_count: Option<u32>,
}

impl DeepView for VideoFormat {
    type V = VideoFormatModel;

    open spec fn deep_view(&self) -> VideoFormatModel {
        match self {
            VideoFormat::Mp4 => VideoFormatModel::Mp4,
            VideoFormat::WebM => VideoFormatModel::WebM,
            VideoFormat::Gif => VideoFormatModel::Gif,
            VideoFormat::Unknown(s) => VideoFormatModel::Unknown(s@),
        }
    }
}

impl DeepView for Video {
    type V = VideoModel;

    open spec fn deep_view(&self) -> VideoModel {
        VideoModel {
            data: self.data@,
            format: self.format.deep_view(),
            dimensions: self.dimensions,
            frame_count: self.frame_count,
        }
    }
}

/// The format announced by magic bytes: an MP4/QuickTime `ftyp` box at 4,
/// the WebM EBML header, or GIF87a/GIF89a.
pub open spec fn spec_detect_format(s: Seq<u8>) -> Option<VideoFormatModel> {
    if s.len() >= 8 && s[4] == 0x66 && s[5] == 0x74 && s[6] == 0x79 && s[7] == 0x70 {
        Some(VideoFormatModel::Mp4)
    } else if s.len() >= 4 && s[0] == 0x1A && s[1] == 0x45 && s[2] == 0xDF && s[3] == 0xA3 {
        Some(VideoFormatModel::WebM)
    } else if s.len() >= 6 && s[0] == 0x47 && s[1] == 0x49 && s[2] == 0x46 && s[3] == 0x38 && (
    s[4] == 0x37 || s[4] == 0x39) && s[5] == 0x61 {
        Some(VideoFormatModel::Gif)
    } else {
        None
    }
}

/// Detects the format from magic bytes.
pub fn detect_format(bytes: &[u8]) -> (r: Option<VideoFormat>)
    ensures
        r.deep_view() == spec_detect_format(bytes@),
{
    let n = bytes.len();
    if n >= 8 && bytes[4] == 0x66 && bytes[5] == 0x74 && bytes[6] == 0x79 && bytes[7] == 0x70 {
        return Some(VideoFormat::Mp4);
    }
    if n >= 4 && bytes[0] == 0x1A && bytes[1] == 0x45 && bytes[2] == 0xDF && bytes[3] == 0xA3 {
        return Some(VideoFormat::WebM);
    }
    if n >= 6 && bytes[0] == 0x47 && bytes[1] == 0x49 && bytes[2] == 0x46 && bytes[3] == 0x38 && (
    bytes[4] == 0x37 || bytes[4] == 0x39) && bytes[5] == 0x61 {
        return Some(VideoFormat::Gif);
    }
    None
}

/// Basic GIF info: the screen dimensions when both are nonzero, and the
/// number of frames when they can all be decoded.
pub open spec fn spec_gif_info(s: Seq<u8>) -> (Option<(u32, u32)>, Option<u32>) {
    match gif_decoding(s) {
        None => (None, None),
        Some(((w, h), frames)) => (
            if w > 0 && h > 0 { Some((w, h)) } else { None },
            match frames {
                Some(f) => Some(f.len() as u32),
                None => None,
            },
        ),
    }
}

/// Extracts basic info (dimensions, frame count) from a GIF.
pub fn extract_gif_info(bytes: &[u8]) -> (r: (Option<(u32, u32)>, Option<u32>))
    ensures
        r == spec_gif_info(bytes@),
{
    match decode_gif(bytes) {
        None => (None, None),
        Some(((w, h), frames)) => {
            let dimensions = if w > 0 && h > 0 {
                Some((w, h))
            } else {
                None
            };
            let frame_count = match frames {
                Some(f) => Some(f.len() as u32),
                None => None,
            };
            (dimensions, frame_count)
        },
    }
}

/// The pixels of frame `index` of a GIF, when all frames decode and there
/// is such a frame.
pub open spec fn spec_gif_frame(s: Seq<u8>, index: u32) -> Option<Seq<u8>> {
    match gif_decoding(s) {
        Some((_, Some(frames))) => if index < frames.len() {
            Some(frames[index as int].2)
        } else {
            None
        },
        _ => None,
    }
}

/// Extracts a single frame from a GIF by index, as RGBA pixels.
pub fn extract_gif_frame(bytes: &[u8], index: u32) -> (r: Option<Vec<u8>>)
    ensures
        r.deep_view() == spec_gif_frame(bytes@, index),
{
    match decode_gif(bytes) {
        Some((_, Some(mut frames))) => {
            if (index as usize) < frames.len() {
                let frame = frames.swap_remove(index as usize);
                Some(frame.2)
            } else {
                None
            }
        },
        _ => None,
    }
}

/// The pixels of every frame of a GIF, when they all decode.
pub open spec fn spec_gif_frames(s: Seq<u8>) -> Option<Seq<Seq<u8>>> {
    match gif_decoding(s) {
        Some((_, Some(frames))) => Some(Seq::new(frames.len(), |i: int| frames[i].2)),
        _ => None,
    }
}

impl Video {
    /// Parses raw bytes as a known video or GIF format; `None` when they
    /// match none.
    pub fn new(bytes: &[u8]) -> (r: Option<Video>)
        ensures
            match spec_detect_format(bytes@) {
                None => r is None,
                Some(format) => r matches Some(v) && v.deep_view() == (VideoModel {
                    data: bytes@,
                    format,
                    dimensions: if format is Gif { spec_gif_info(bytes@).0 } else { None },
                    frame_count: if format is Gif { spec_gif_info(bytes@).1 } else { None },
                }),
            },
    {
        let format = detect_format(bytes)?;
        let (dimensions, frame_count) = match &format {
            VideoFormat::Gif => extract_gif_info(bytes),
            _ => (None, None),
        };
        Some(Video { data: slice_to_vec(bytes), format, dimensions, frame_count })
    }

    /// Whether this is a video format (mp4, webm).
    pub fn is_video(&self) -> (r: bool)
        ensures
            r == (self.format is Mp4 || self.format is WebM),
    {
        match self.format {
            VideoFormat::Mp4 | VideoFormat::WebM => true,
            _ => false,
        }
    }

    /// Whether this is an animated GIF.
    pub fn is_gif(&self) -> (r: bool)
        ensures
            r == self.format is Gif,
    {
        match self.format {
            VideoFormat::Gif => true,
            _ => false,
        }
    }

    /// Extracts a single frame from a GIF as RGBA pixels; `None` for video
    /// formats, whose frames would need a video decoder.
    pub fn extract_frame(&self, index: u32) -> (r: Option<Vec<u8>>)
        ensures
            r.deep_view() == (if self.format is Gif {
                spec_gif_frame(self.data@, index)
            } else {
                None
            }),
    {
        match &self.format {
            VideoFormat::Gif => extract_gif_frame(self.data.as_slice(), index),
            _ => None,
        }
    }

    /// Extracts all frames from a GIF as RGBA pixel buffers; `None` for
    /// video formats.
    pub fn extract_all_frames(&self) -> (r: Option<Vec<Vec<u8>>>)
        ensures
            r.deep_view() == (if self.format is Gif {
                spec_gif_frames(self.data@)
            } else {
                None
            }),
    {
        match &self.format {
            VideoFormat::Gif => match decode_gif(self.data.as_slice()) {
                Some((_, Some(frames))) => {
                    let ghost fs = frames.deep_view();
                    let mut out: Vec<Vec<u8>> = Vec::new();
                    let mut i: usize = 0;
                    while i < frames.len()
                        invariant
                            i <= frames@.len(),
                            fs == frames.deep_view(),
                            out.deep_view() =~= Seq::new(i as nat, |k: int| fs[k].2),
                        decreases frames@.len() - i,
                    {
                        let ghost before = out.deep_view();
                        let pixels = slice_to_vec(frames[i].2.as_slice());
                        out.push(pixels);
                        assert(out.deep_view() =~= before.push(fs[i as int].2));
                        i += 1;
                    }
                    Some(out)
                },
                _ => None,
            },
            _ => None,
        }
    }
}

/// `save_gif_frames`: every frame of the GIF encoded as PNG and named
/// `{stem}_frame_{i:04}.png`; `None` when decoding or any encoding fails.
pub open spec fn spec_save_gif_frames(s: Seq<u8>, stem: Seq<char>) -> Option<
    Seq<(Seq<u8>, Seq<char>)>,
> {
    match gif_decoding(s) {
        Some((_, Some(frames))) => if forall|i: int|
            0 <= i < frames.len() ==> #[trigger] spec_raw_to_png(
                frames[i].2,
                frames[i].0,
                frames[i].1,
            ) is Some {
            Some(
                Seq::new(
                    frames.len(),
                    |i: int|
                        (
                            spec_raw_to_png(frames[i].2, frames[i].0, frames[i].1)->0,
                            spec_frame_file_name(stem, i as nat),
                        ),
                ),
            )
        } else {
            None
        },
        _ => None,
    }
}

/// Encodes all frames of a GIF as separate PNG files, returning a list of
/// `(png_bytes, file_name)`; `stem` is the base file name without extension
/// (e.g. `animation` for `animation.gif`).
pub fn save_gif_frames(bytes: &[u8], stem: &str) -> (r: Option<Vec<(Vec<u8>, String)>>)
    ensures
        r.deep_view() == spec_save_gif_frames(bytes@, stem@),
{
    let decoded = decode_gif(bytes);
    match decoded {
        Some((_, Some(frames))) => {
            let ghost fs = frames.deep_view();
            let mut results: Vec<(Vec<u8>, String)> = Vec::new();
            let mut i: usize = 0;
            while i < frames.len()
                invariant
                    i <= frames@.len(),
                    fs == frames.deep_view(),
                    gif_decoding(bytes@) matches Some((_, Some(x))) && x == fs,
                    forall|k: int| 0 <= k < i ==> #[trigger] spec_raw_to_png(fs[k].2, fs[k].0, fs[k].1) is Some,
                    results.deep_view() =~= Seq::new(
                        i as nat,
                        |k: int|
                            (
                                spec_raw_to_png(fs[k].2, fs[k].0, fs[k].1)->0,
                                spec_frame_file_name(stem@, k as nat),
                            ),
                    ),
                decreases frames@.len() - i,
            {
                let w = frames[i].0;
                let h = frames[i].1;
                let pixels = slice_to_vec(frames[i].2.as_slice());
                let png = match raw_to_png(pixels, w, h) {
                    Some((png, _)) => png,
                    None => {
                        assert(spec_raw_to_png(fs[i as int].2, fs[i as int].0, fs[i as int].1)
                            is None);
                        return None;
                    },
                };
                let name = frame_file_name(stem, i);
                let ghost before = results.deep_view();
                results.push((png, name));
                assert(results.deep_view() =~= before.push((png@, name@)));
                i += 1;
            }
            Some(results)
        },
        _ => None,
    }
}

// ── Laws ──────────────────────────────────────────────────────────────────

/// The texture container and the video detector agree on embedded
/// payloads: a payload the texture parser names `gif` is exactly one the
/// video detector takes for a GIF, and one it names `mp4` is taken for an
/// MP4.
pub proof fn law_signature_agrees_with_detection(s: Seq<u8>)
    ensures
        spec_match_signature(s) == "gif"@ <==> spec_detect_format(s) matches Some(
            VideoFormatModel::Gif,
        ),
        spec_match_signature(s) == "mp4"@ ==> spec_detect_format(s) matches Some(
            VideoFormatModel::Mp4,
        ),
{
    reveal_strlit("png");
    reveal_strlit("jpg");
    reveal_strlit("mp4");
    reveal_strlit("gif");
    reveal_strlit("tex");
    assert("gif"@[0] != "png"@[0] && "gif"@[0] != "jpg"@[0] && "gif"@[0] != "mp4"@[0] && "gif"@[0]
        != "tex"@[0]);
}

/// Extracting one frame gives exactly that frame of the extraction of all
/// frames, and a GIF's frame count is the number of frames extracted.
pub proof fn law_frames_agree(s: Seq<u8>, index: u32)
    ensures
        spec_gif_frames(s) matches Some(all) ==> {
            &&& index < all.len() ==> spec_gif_frame(s, index) == Some(all[index as int])
            &&& index >= all.len() ==> spec_gif_frame(s, index) is None
            &&& spec_gif_info(s).1 == Some(all.len() as u32)
        },
{
}

} // verus!
