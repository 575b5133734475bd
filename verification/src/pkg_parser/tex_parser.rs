//! The `.tex` texture container: a fixed header (three magics, format,
//! dimensions, image and mipmap counts, LZ4 flag and sizes) followed by the
//! payload, optionally LZ4-compressed.
use vstd::prelude::*;
use vstd::slice::{slice_subrange, slice_to_vec};
use crate::pkg_parser::wire::{le_u32, fits, u32_at, has_room, lemma_bytes_deep_view};
use crate::pkg_parser::text::{utf8_lossy, lossy_string, str_eq};
use crate::pkg_parser::codecs::{
    lz4_block_decompress, lz4_decompress, bcn_rgba, bcn_decode_rgba, BlockCompression,
    png_rgba8, encode_png_rgba8, decoded_rgba8, decode_rgba8, EmbeddedImageFormat,
};

verus! {

broadcast use lemma_bytes_deep_view;

// ── Byte-level reads ──────────────────────────────────────────────────────

/// Reads a little-endian `u32` at `*offset` and advances past it; leaves
/// `*offset` alone when fewer than four bytes remain.
pub fn read_u32(bytes: &[u8], offset: &mut usize) -> (r: Option<u32>)
    ensures
        r == (if fits(bytes@, *old(offset) as int, 4) {
            Some(le_u32(bytes@, *old(offset) as int))
        } else {
            None::<u32>
        }),
        *final(offset) == (if r is Some { *old(offset) + 4 } else { *old(offset) as int }),
{
    if has_room(bytes, *offset, 4) {
        let v = u32_at(bytes, *offset);
        *offset = *offset + 4;
        Some(v)
    } else {
        None
    }
}

/// Skips `n` bytes (padding / reserved fields) if they are there.
pub fn skip(bytes: &[u8], offset: &mut usize, n: usize) -> (r: Option<()>)
    ensures
        r is Some <==> fits(bytes@, *old(offset) as int, n as int),
        *final(offset) == (if r is Some { *old(offset) + n } else { *old(offset) as int }),
{
    if has_room(bytes, *offset, n) {
        *offset = *offset + n;
        Some(())
    } else {
        None
    }
}

/// Reads 8 raw bytes (a magic/version string) at `*offset` and advances past
/// them; leaves `*offset` alone when fewer than eight bytes remain.
pub fn read_magic(bytes: &[u8], offset: &mut usize) -> (r: Option<[u8; 8]>)
    ensures
        r is Some <==> fits(bytes@, *old(offset) as int, 8),
        r matches Some(m) ==> m@ == bytes@.subrange(*old(offset) as int, *old(offset) + 8),
        *final(offset) == (if r is Some { *old(offset) + 8 } else { *old(offset) as int }),
{
    if has_room(bytes, *offset, 8) {
        let p = *offset;
        let m = [
            bytes[p],
            bytes[p + 1],
            bytes[p + 2],
            bytes[p + 3],
            bytes[p + 4],
            bytes[p + 5],
            bytes[p + 6],
            bytes[p + 7],
        ];
        *offset = p + 8;
        Some(m)
    } else {
        None
    }
}

// ── Embedded format detection ─────────────────────────────────────────────

/// The extension an embedded payload's magic bytes announce: PNG, JPEG, an
/// MP4 `ftyp` box, GIF87a/GIF89a, or `tex` when none matches.
pub open spec fn spec_match_signature(s: Seq<u8>) -> Seq<char> {
    if s.len() >= 8 && s[0] == 0x89 && s[1] == 0x50 && s[2] == 0x4E && s[3] == 0x47 && s[4]
        == 0x0D && s[5] == 0x0A && s[6] == 0x1A && s[7] == 0x0A {
        "png"@
    } else if s.len() >= 3 && s[0] == 0xFF && s[1] == 0xD8 && s[2] == 0xFF {
        "jpg"@
    } else if s.len() >= 8 && s[4] == 0x66 && s[5] == 0x74 && s[6] == 0x79 && s[7] == 0x70 {
        "mp4"@
    } else if s.len() >= 6 && s[0] == 0x47 && s[1] == 0x49 && s[2] == 0x46 && s[3] == 0x38 && (
    s[4] == 0x37 || s[4] == 0x39) && s[5] == 0x61 {
        "gif"@
    } else {
        "tex"@
    }
}

/// Detects the embedded image format from magic bytes.
pub fn match_signature(bytes: &[u8]) -> (r: &'static str)
    ensures
        r@ == spec_match_signature(bytes@),
{
    let n = bytes.len();
    if n >= 8 && bytes[0] == 0x89 && bytes[1] == 0x50 && bytes[2] == 0x4E && bytes[3] == 0x47
        && bytes[4] == 0x0D && bytes[5] == 0x0A && bytes[6] == 0x1A && bytes[7] == 0x0A {
        return "png";
    }
    if n >= 3 && bytes[0] == 0xFF && bytes[1] == 0xD8 && bytes[2] == 0xFF {
        return "jpg";
    }
    if n >= 8 && bytes[4] == 0x66 && bytes[5] == 0x74 && bytes[6] == 0x79 && bytes[7] == 0x70 {
        return "mp4";
    }
    if n >= 6 && bytes[0] == 0x47 && bytes[1] == 0x49 && bytes[2] == 0x46 && bytes[3] == 0x38 && (
    bytes[4] == 0x37 || bytes[4] == 0x39) && bytes[5] == 0x61 {
        return "gif";
    }
    "tex"
}

/// The extension a texture's format id stands for: 0 is an embedded image
/// (named by its magic bytes), 4 and 7 are BC1/DXT1, 6 is BC3/DXT5, 8 is
/// RG88, 9 is R8; any other id is `tex`.
pub open spec fn spec_format_extension(format: u32, payload: Seq<u8>) -> Seq<char> {
    if format == 0 {
        spec_match_signature(payload)
    } else if format == 4 || format == 7 {
        "dxt1"@
    } else if format == 6 {
        "dxt5"@
    } else if format == 8 {
        "rg88"@
    } else if format == 9 {
        "r8"@
    } else {
        "tex"@
    }
}

fn format_extension(format: u32, payload: &[u8]) -> (r: String)
    ensures
        r@ == spec_format_extension(format, payload@),
{
    let ext: &str = if format == 0 {
        match_signature(payload)
    } else if format == 4 || format == 7 {
        "dxt1"
    } else if format == 6 {
        "dxt5"
    } else if format == 8 {
        "rg88"
    } else if format == 9 {
        "r8"
    } else {
        "tex"
    };
    ext.to_owned()
}

// ── The texture ───────────────────────────────────────────────────────────

/// A parsed texture. `payload` holds mip level 0 (all levels until
/// [`Tex::build_mip_chain`] splits them out into `mip_levels`), and
/// `actual_mip_count` counts the levels physically present.
#[derive(Debug, Clone)]
pub struct Tex {
    pub texv: String,
    pub texi: String,
    pub texb: String,
    pub size: u32,
    pub dimension: [u32; 2],
    pub image_count: u32,
    pub mipmap_count: u32,
    pub actual_mip_count: u32,
    pub lz4: bool,
    pub decompressed_size: u32,
    pub extension: String,
    pub payload: Vec<u8>,
    pub mip_levels: Vec<Vec<u8>>,
}

/// The mathematical content of a [`Tex`].
pub struct TexModel {
    pub texv: Seq<char>,
    pub texi: Seq<char>,
    pub texb: Seq<char>,
    pub size: u32,
    pub width: u32,
    pub height: u32,
    pub image_count: u32,
    pub mipmap_count: u32,
    pub actual_mip_count: u32,
    pub lz4: bool,
    pub decompressed_size: u32,
    pub extension: Seq<char>,
    pub payload: Seq<u8>,
    pub mip_levels: Seq<Seq<u8>>,
}

impl DeepView for Tex {
    type V = TexModel;

    open spec fn deep_view(&self) -> TexModel {
        TexModel {
            texv: self.texv@,
            texi: self.texi@,
            texb: self.texb@,
            size: self.size,
            width: self.dimension@[0],
            height: self.dimension@[1],
            image_count: self.image_count,
            mipmap_count: self.mipmap_count,
            actual_mip_count: self.actual_mip_count,
            lz4: self.lz4,
            decompressed_size: self.decompressed_size,
            extension: self.extension@,
            payload: self.payload@,
            mip_levels: self.mip_levels.deep_view(),
        }
    }
}

/// Header layout: `TEXV` magic at 0, `TEXI` magic at 9, the format id at 18,
/// width at 26, height at 30, `TEXB` magic at 46, the image count at 55; a
/// mipmap count at 67 only when the `TEXB` magic ends in `4` (`TEXB0004`);
/// then, after 8 reserved bytes, the LZ4 flag, the decompressed size, the
/// payload size, and the payload.
pub open spec fn mip_field_size(s: Seq<u8>) -> int {
    if s[53] == 0x34 { 4 } else { 0 }
}

/// A texture container as stored, before any LZ4 decompression.
pub open spec fn spec_parse_tex_container(s: Seq<u8>) -> Option<TexModel> {
    if s.len() < 87 {
        None
    } else {
        let m = mip_field_size(s);
        let start = 87 + m;
        if s.len() < start {
            None
        } else {
            let size = le_u32(s, 83 + m);
            if start + size > s.len() {
                None
            } else {
                let payload = s.subrange(start, start + size);
                Some(
                    TexModel {
                        texv: utf8_lossy(s.subrange(0, 8)),
                        texi: utf8_lossy(s.subrange(9, 17)),
                        texb: utf8_lossy(s.subrange(46, 54)),
                        size,
                        width: le_u32(s, 26),
                        height: le_u32(s, 30),
                        image_count: le_u32(s, 55),
                        mipmap_count: if m == 4 { le_u32(s, 67) } else { 0 },
                        actual_mip_count: 1,
                        lz4: le_u32(s, 75 + m) == 1,
                        decompressed_size: le_u32(s, 79 + m),
                        extension: spec_format_extension(le_u32(s, 18), payload),
                        payload,
                        mip_levels: seq![],
                    },
                )
            }
        }
    }
}

/// The texture with its payload replaced by `payload`.
pub open spec fn with_payload(t: TexModel, payload: Seq<u8>) -> TexModel {
    TexModel { payload, ..t }
}

/// A texture file: the container, with an LZ4-flagged payload decompressed
/// (the stored decompressed size bounds the output).
pub open spec fn spec_parse_tex(s: Seq<u8>) -> Option<TexModel> {
    match spec_parse_tex_container(s) {
        None => None,
        Some(t) => if t.lz4 {
            match lz4_block_decompress(t.payload, t.decompressed_size as usize) {
                None => None,
                Some(p) => Some(with_payload(t, p)),
            }
        } else {
            Some(t)
        },
    }
}

impl Tex {
    /// Parses the texture container, leaving an LZ4-compressed payload as
    /// stored.
    pub fn parse_container(bytes: &[u8]) -> (r: Option<Tex>)
        ensures
            r.deep_view() == spec_parse_tex_container(bytes@),
    {
        let mut pos: usize = 0;
        let texv_magic = read_magic(bytes, &mut pos)?;
        let texv = lossy_string(texv_magic.as_slice());
        skip(bytes, &mut pos, 1)?;
        let texi_magic = read_magic(bytes, &mut pos)?;
        let texi = lossy_string(texi_magic.as_slice());
        skip(bytes, &mut pos, 1)?;
        let format = read_u32(bytes, &mut pos)?;
        skip(bytes, &mut pos, 4)?;
        let w = read_u32(bytes, &mut pos)?;
        let h = read_u32(bytes, &mut pos)?;
        skip(bytes, &mut pos, 12)?;
        let texb_magic = read_magic(bytes, &mut pos)?;
        let texb = lossy_string(texb_magic.as_slice());
        skip(bytes, &mut pos, 1)?;
        let image_count = read_u32(bytes, &mut pos)?;
        skip(bytes, &mut pos, 8)?;
        let mipmap_count = if texb_magic[7] == 0x34 {
            read_u32(bytes, &mut pos)?
        } else {
            0
        };
        skip(bytes, &mut pos, 8)?;
        let lz4 = read_u32(bytes, &mut pos)? == 1;
        let decompressed_size = read_u32(bytes, &mut pos)?;
        let payload_size = read_u32(bytes, &mut pos)?;
        let psize = payload_size as usize;
        if !has_room(bytes, pos, psize) {
            return None;
        }
        let payload = slice_to_vec(slice_subrange(bytes, pos, pos + psize));
        let extension = format_extension(format, payload.as_slice());
        let dimension = [w, h];
        let mip_levels: Vec<Vec<u8>> = Vec::new();
        assert(mip_levels.deep_view() =~= Seq::<Seq<u8>>::empty());
        Some(
            Tex {
                texv,
                texi,
                texb,
                size: payload_size,
                dimension,
                image_count,
                mipmap_count,
                actual_mip_count: 1,
                lz4,
                decompressed_size,
                extension,
                payload,
                mip_levels,
            },
        )
    }

    /// Installs the outcome of decompressing the payload: fails when
    /// decompression failed, else replaces the payload.
    pub fn with_decompressed_payload(self, decompressed: Option<Vec<u8>>) -> (r: Option<Tex>)
        ensures
            match decompressed {
                None => r is None,
                Some(p) => r.deep_view() == Some(with_payload(self.deep_view(), p@)),
            },
    {
        match decompressed {
            None => None,
            Some(payload) => Some(Tex { payload, ..self }),
        }
    }

    /// Parses a `.tex` file from raw bytes, decompressing an LZ4 payload.
    pub fn new(bytes: &[u8]) -> (r: Option<Tex>)
        ensures
            r.deep_view() == spec_parse_tex(bytes@),
            r matches Some(t) ==> (!t.lz4 ==> t.payload@.len() == t.size) && (t.lz4
                ==> t.payload@.len() <= t.decompressed_size),
    {
        let tex = Tex::parse_container(bytes)?;
        if tex.lz4 {
            let decompressed = match lz4_decompress(
                tex.payload.as_slice(),
                tex.decompressed_size as usize,
            ) {
                Ok(payload) => Some(payload),
                Err(_) => None,
            };
            tex.with_decompressed_payload(decompressed)
        } else {
            Some(tex)
        }
    }
}

// ── Mip levels ────────────────────────────────────────────────────────────
//
// BCn textures store their mip levels back to back in the payload
// (`level0 | level1 | …`). Each level halves both dimensions (never below 1)
// and takes one block (8 bytes for BC1, 16 for BC3) per 4×4 pixels. The
// parser only splits out what is physically present; any shortfall against
// the advertised `mipmap_count` is left for the GPU to generate.

/// Bytes per 4×4 block: 8 for `dxt1`, 16 for `dxt5`, 0 for formats whose
/// payload holds no mip chain.
pub open spec fn block_bytes(ext: Seq<char>) -> int {
    if ext == "dxt1"@ {
        8
    } else if ext == "dxt5"@ {
        16
    } else {
        0
    }
}

/// A dimension at mip `level`: halved per level, never below 1.
pub open spec fn mip_dim(d: int, level: nat) -> int
    decreases level,
{
    if level == 0 {
        d
    } else {
        let half = mip_dim(d, (level - 1) as nat) / 2;
        if half < 1 {
            1
        } else {
            half
        }
    }
}

/// Bytes of mip `level` of a `w`×`h` texture with `bb`-byte 4×4 blocks.
pub open spec fn mip_level_size(w: int, h: int, level: nat, bb: int) -> int {
    ((mip_dim(w, level) + 3) / 4) * ((mip_dim(h, level) + 3) / 4) * bb
}

/// The complete mip levels `level`, `level + 1`, … below `count` stored in
/// `p` from byte `off`, stopping at the first one that does not fit.
pub open spec fn mip_split(
    p: Seq<u8>,
    w: int,
    h: int,
    bb: int,
    level: nat,
    count: nat,
    off: int,
) -> Seq<Seq<u8>>
    decreases count - level,
{
    if level >= count || off < 0 {
        seq![]
    } else {
        let size = mip_level_size(w, h, level, bb);
        if off + size > p.len() {
            seq![]
        } else {
            seq![p.subrange(off, off + size)] + mip_split(p, w, h, bb, level + 1, count, off + size)
        }
    }
}

/// Whether `build_mip_chain` splits this texture's payload.
pub open spec fn splits_mip_chain(t: TexModel) -> bool {
    let bb = block_bytes(t.extension);
    &&& bb != 0
    &&& t.mipmap_count > 1
    &&& t.mip_levels.len() == 0
    &&& t.payload.len() >= mip_level_size(t.width as int, t.height as int, 0, bb)
}

/// `build_mip_chain`: for a BCn texture advertising more than one level,
/// whose levels are not split out yet and whose payload holds level 0, the
/// payload keeps level 0 and the following complete levels move to
/// `mip_levels`; anything else is left as it is.
pub open spec fn spec_build_mip_chain(t: TexModel) -> TexModel {
    let bb = block_bytes(t.extension);
    let level0 = mip_level_size(t.width as int, t.height as int, 0, bb);
    if !splits_mip_chain(t) {
        t
    } else {
        let levels = mip_split(
            t.payload,
            t.width as int,
            t.height as int,
            bb,
            1,
            t.mipmap_count as nat,
            level0,
        );
        TexModel {
            payload: t.payload.subrange(0, level0),
            mip_levels: levels,
            actual_mip_count: (1 + levels.len()) as u32,
            ..t
        }
    }
}

/// The levels the header advertises but the payload does not hold.
pub open spec fn spec_missing_mip_count(t: TexModel) -> u32 {
    if t.mipmap_count > t.actual_mip_count {
        (t.mipmap_count - t.actual_mip_count) as u32
    } else {
        0
    }
}

fn level_size(w: u32, h: u32, bb: u32) -> (r: u128)
    requires
        bb <= 16,
    ensures
        r == ((w + 3) / 4) * ((h + 3) / 4) * bb,
{
    let bw = (w as u128 + 3) / 4;
    let bh = (h as u128 + 3) / 4;
    let b = bb as u128;
    assert(bw * bh <= 0x1000_0000_0000_0000) by (nonlinear_arith)
        requires
            bw <= 0x4000_0000,
            bh <= 0x4000_0000,
    ;
    assert(bw * bh * b <= 0x1_0000_0000_0000_0000) by (nonlinear_arith)
        requires
            bw * bh <= 0x1000_0000_0000_0000,
            b <= 16,
    ;
    bw * bh * b
}

fn halve_dim(d: u32) -> (r: u32)
    ensures
        r == (if d / 2 < 1 { 1 } else { d / 2 }),
{
    if d / 2 < 1 {
        1
    } else {
        d / 2
    }
}

impl Tex {
    /// Splits the mip levels physically present in a BCn payload into
    /// `mip_levels`, keeping level 0 in `payload`, and records how many
    /// levels are present. For every other format, for a single advertised
    /// level, or when the levels were already split out, nothing changes.
    pub fn build_mip_chain(&mut self)
        ensures
            final(self).deep_view() == spec_build_mip_chain(old(self).deep_view()),
    {
        let bb: u32 = if str_eq(self.extension.as_str(), "dxt1") {
            8
        } else if str_eq(self.extension.as_str(), "dxt5") {
            16
        } else {
            return ;
        };
        if self.mipmap_count <= 1 || self.mip_levels.len() > 0 {
            return ;
        }
        let w = self.dimension[0];
        let h = self.dimension[1];
        let level0 = level_size(w, h, bb);
        if level0 > self.payload.len() as u128 {
            return ;
        }
        let level0 = level0 as usize;
        let ghost p = self.payload@;
        let ghost count = self.mipmap_count as nat;
        let ghost full = mip_split(p, w as int, h as int, bb as int, 1, count, level0 as int);
        let len = self.payload.len();
        let mut levels: Vec<Vec<u8>> = Vec::new();
        let mut lw = w;
        let mut lh = h;
        let mut off = level0;
        let mut level: u32 = 1;
        let mut stop = false;
        while level < self.mipmap_count && !stop
            invariant
                p == self.payload@,
                len == p.len(),
                count == self.mipmap_count,
                bb == 8 || bb == 16,
                1 <= level <= self.mipmap_count,
                off <= len,
                lw == mip_dim(w as int, (level - 1) as nat),
                lh == mip_dim(h as int, (level - 1) as nat),
                levels@.len() == level - 1,
                stop ==> mip_split(p, w as int, h as int, bb as int, level as nat, count, off as int)
                    == Seq::<Seq<u8>>::empty(),
                levels.deep_view() + mip_split(
                    p,
                    w as int,
                    h as int,
                    bb as int,
                    level as nat,
                    count,
                    off as int,
                ) == full,
            decreases self.mipmap_count - level + (if stop { 0int } else { 1int }),
        {
            let nw = halve_dim(lw);
            let nh = halve_dim(lh);
            let size = level_size(nw, nh, bb);
            if size > (len - off) as u128 {
                stop = true;
            } else {
                let size = size as usize;
                let piece = slice_to_vec(slice_subrange(self.payload.as_slice(), off, off + size));
                levels.push(piece);
                lw = nw;
                lh = nh;
                off = off + size;
                level = level + 1;
            }
        }
        self.payload.truncate(level0);
        let n = levels.len();
        self.mip_levels = levels;
        self.actual_mip_count = (1 + n) as u32;
    }

    /// The number of mip levels physically present (level 0 included).
    pub fn actual_mip_count(&self) -> (r: u32)
        ensures
            r == self.actual_mip_count,
    {
        self.actual_mip_count
    }

    /// The number of advertised mip levels that are not present and must be
    /// generated by the renderer.
    pub fn missing_mip_count(&self) -> (r: u32)
        ensures
            r == spec_missing_mip_count(self.deep_view()),
    {
        if self.mipmap_count > self.actual_mip_count {
            self.mipmap_count - self.actual_mip_count
        } else {
            0
        }
    }

    /// Whether the renderer has mip levels left to generate.
    pub fn needs_gpu_mip_generation(&self) -> (r: bool)
        ensures
            r == (spec_missing_mip_count(self.deep_view()) > 0),
    {
        self.missing_mip_count() > 0
    }
}

// ── Conversion to images ──────────────────────────────────────────────────

/// An R8 payload as RGBA: each byte becomes an opaque grey pixel.
pub open spec fn expand_r8(p: Seq<u8>) -> Seq<u8> {
    Seq::new(4 * p.len(), |i: int| if i % 4 == 3 { 255u8 } else { p[i / 4] })
}

/// An RG88 payload as RGBA: each 2-byte pixel `(a, b)` becomes the pixel
/// `(a, a, a, b)`; a trailing odd byte is ignored.
pub open spec fn expand_rg88(p: Seq<u8>) -> Seq<u8> {
    Seq::new(
        (4 * (p.len() / 2)) as nat,
        |i: int| if i % 4 == 3 { p[2 * (i / 4) + 1] } else { p[2 * (i / 4)] },
    )
}

/// PNG of a `w`×`h` RGBA image read from the front of `pixels`; `None` when
/// `pixels` is too short (or the size overflows) or the encoder fails.
pub open spec fn spec_raw_to_png(pixels: Seq<u8>, w: u32, h: u32) -> Option<Seq<u8>> {
    let n = 4 * w * h;
    if n > usize::MAX || n > pixels.len() {
        None
    } else {
        png_rgba8(pixels.subrange(0, n), w, h)
    }
}

/// A PNG result paired with the `png` extension.
pub open spec fn png_named(png: Option<Seq<u8>>) -> Option<(Seq<u8>, Seq<char>)> {
    match png {
        Some(b) => Some((b, "png"@)),
        None => None,
    }
}

/// A BCn payload decoded to RGBA and encoded as PNG.
pub open spec fn bcn_to_png(t: TexModel, encoding: BlockCompression) -> Option<(Seq<u8>, Seq<char>)> {
    if t.width == 0 || t.height == 0 {
        None
    } else {
        png_named(
            spec_raw_to_png(
                bcn_rgba(t.payload, t.width as usize, t.height as usize, encoding),
                t.width,
                t.height,
            ),
        )
    }
}

/// `parse_to_image`: R8 and RG88 are expanded to RGBA and BCn is decoded,
/// then encoded as PNG; embedded JPG/PNG/MP4/GIF payloads come back as they
/// are with their extension; any other extension yields `None`.
pub open spec fn spec_parse_to_image(t: TexModel) -> Option<(Seq<u8>, Seq<char>)> {
    let ext = t.extension;
    if ext == "r8"@ {
        png_named(spec_raw_to_png(expand_r8(t.payload), t.width, t.height))
    } else if ext == "rg88"@ {
        png_named(spec_raw_to_png(expand_rg88(t.payload), t.width, t.height))
    } else if ext == "dxt1"@ {
        bcn_to_png(t, BlockCompression::Bc1)
    } else if ext == "dxt5"@ {
        bcn_to_png(t, BlockCompression::Bc3)
    } else if ext == "jpg"@ || ext == "png"@ || ext == "mp4"@ || ext == "gif"@ {
        Some((t.payload, ext))
    } else {
        None
    }
}

/// Encodes a `w`×`h` RGBA image, read from the front of `bytes`, as PNG.
pub fn raw_to_png(bytes: Vec<u8>, w: u32, h: u32) -> (r: Option<(Vec<u8>, String)>)
    ensures
        r matches Some((png, ext)) ==> png_named(spec_raw_to_png(bytes@, w, h)) == Some(
            (png@, ext@),
        ),
        r is None ==> spec_raw_to_png(bytes@, w, h) is None,
{
    let wl = w as u128;
    let hl = h as u128;
    assert(wl * hl <= 0xFFFF_FFFF_FFFF_FFFF) by (nonlinear_arith)
        requires
            wl <= 0xFFFF_FFFF,
            hl <= 0xFFFF_FFFF,
    ;
    let n = 4 * (wl * hl);
    assert(n == 4 * w * h) by (nonlinear_arith)
        requires
            n == 4 * (wl * hl),
            wl == w,
            hl == h,
    ;
    if n > usize::MAX as u128 || n > bytes.len() as u128 {
        return None;
    }
    let n = n as usize;
    match encode_png_rgba8(slice_subrange(bytes.as_slice(), 0, n), w, h) {
        Ok(png) => Some((png, "png".to_owned())),
        Err(_) => None,
    }
}

fn rgba_from_r8(p: &[u8]) -> (r: Vec<u8>)
    ensures
        r@ == expand_r8(p@),
{
    let mut out: Vec<u8> = Vec::new();
    let mut i: usize = 0;
    while i < p.len()
        invariant
            i <= p@.len(),
            out@ =~= expand_r8(p@.subrange(0, i as int)),
        decreases p@.len() - i,
    {
        let b = p[i];
        out.push(b);
        out.push(b);
        out.push(b);
        out.push(255);
        i += 1;
        assert(out@ =~= expand_r8(p@.subrange(0, i as int))) by {
        }
    }
    out
}

fn rgba_from_rg88(p: &[u8]) -> (r: Vec<u8>)
    ensures
        r@ == expand_rg88(p@),
{
    let mut out: Vec<u8> = Vec::new();
    let n = p.len();
    let pixels = n / 2;
    let mut k: usize = 0;
    while k < pixels
        invariant
            pixels == p@.len() / 2,
            p@.len() == p.len(),
            k <= pixels,
            out@ =~= Seq::new(
                (4 * k) as nat,
                |i: int| if i % 4 == 3 { p@[2 * (i / 4) + 1] } else { p@[2 * (i / 4)] },
            ),
        decreases pixels - k,
    {
        let a = p[2 * k];
        let b = p[2 * k + 1];
        out.push(a);
        out.push(a);
        out.push(a);
        out.push(b);
        k += 1;
    }
    out
}

impl Tex {
    fn bcn_to_png(&self, encoding: BlockCompression) -> (r: Option<(Vec<u8>, String)>)
        requires
            4 * self.dimension@[0] * self.dimension@[1] <= usize::MAX,
        ensures
            r.deep_view() == bcn_to_png(self.deep_view(), encoding),
    {
        let w = self.dimension[0];
        let h = self.dimension[1];
        match bcn_decode_rgba(self.payload.as_slice(), w as usize, h as usize, encoding) {
            Ok(decoded) => {
                let r = raw_to_png(decoded, w, h);
                r
            },
            Err(_) => None,
        }
    }

    /// Converts the texture to an image file: `(bytes, extension)`.
    pub fn parse_to_image(&self) -> (r: Option<(Vec<u8>, String)>)
        requires
            self.extension@ == "dxt1"@ || self.extension@ == "dxt5"@ ==> 4 * self.dimension@[0]
                * self.dimension@[1] <= usize::MAX,
        ensures
            r.deep_view() == spec_parse_to_image(self.deep_view()),
    {
        let w = self.dimension[0];
        let h = self.dimension[1];
        let ext = self.extension.as_str();
        let r = if str_eq(ext, "r8") {
            raw_to_png(rgba_from_r8(self.payload.as_slice()), w, h)
        } else if str_eq(ext, "rg88") {
            raw_to_png(rgba_from_rg88(self.payload.as_slice()), w, h)
        } else if str_eq(ext, "dxt1") {
            self.bcn_to_png(BlockCompression::Bc1)
        } else if str_eq(ext, "dxt5") {
            self.bcn_to_png(BlockCompression::Bc3)
        } else if str_eq(ext, "jpg") || str_eq(ext, "png") || str_eq(ext, "mp4") || str_eq(
            ext,
            "gif",
        ) {
            Some((slice_to_vec(self.payload.as_slice()), ext.to_owned()))
        } else {
            None
        };
        r
    }
}

// ── Conversion to GPU-ready pixels ────────────────────────────────────────

/// The texture with new dimensions and payload.
pub open spec fn with_pixels(t: TexModel, w: u32, h: u32, payload: Seq<u8>) -> TexModel {
    TexModel { width: w, height: h, payload, ..t }
}

/// The embedded format an extension names, for `png` and `jpg`.
pub open spec fn embedded_format(ext: Seq<char>) -> Option<EmbeddedImageFormat> {
    if ext == "png"@ {
        Some(EmbeddedImageFormat::Png)
    } else if ext == "jpg"@ {
        Some(EmbeddedImageFormat::Jpeg)
    } else {
        None
    }
}

/// Extensions whose payload goes to the GPU as it is.
pub open spec fn kept_native(ext: Seq<char>) -> bool {
    ext == "dxt1"@ || ext == "dxt5"@ || ext == "mp4"@ || ext == "gif"@ || ext == "rg88"@ || ext
        == "r8"@
}

/// `parse_to_rgba`: embedded PNG/JPG payloads are decoded to RGBA8 (taking
/// the decoded dimensions); BCn, R8, RG88, MP4 and GIF payloads are kept;
/// any other payload is accepted only if it already is `w × h` RGBA. Yields
/// whether it succeeded and the resulting texture.
pub open spec fn spec_parse_to_rgba(t: TexModel) -> (bool, TexModel) {
    match embedded_format(t.extension) {
        Some(format) => match decoded_rgba8(t.payload, format) {
            None => (false, t),
            Some((w, h, px)) => (true, with_pixels(t, w, h, px)),
        },
        None => if kept_native(t.extension) {
            (true, t)
        } else {
            (t.payload.len() == t.width * t.height * 4, t)
        },
    }
}

impl Tex {
    /// Brings the payload into the form the renderer uploads: decodes
    /// embedded PNG/JPG to RGBA8, keeps GPU-native formats as they are, and
    /// accepts an unknown format only when it already is RGBA.
    pub fn parse_to_rgba(&mut self) -> (r: Option<()>)
        requires
            embedded_format(old(self).extension@) is None && !kept_native(old(self).extension@)
                ==> old(self).dimension@[0] * old(self).dimension@[1] * 4 <= usize::MAX,
        ensures
            r is Some == spec_parse_to_rgba(old(self).deep_view()).0,
            final(self).deep_view() == spec_parse_to_rgba(old(self).deep_view()).1,
    {
        let ext = self.extension.as_str();
        let format = if str_eq(ext, "png") {
            Some(EmbeddedImageFormat::Png)
        } else if str_eq(ext, "jpg") {
            Some(EmbeddedImageFormat::Jpeg)
        } else {
            None
        };
        match format {
            Some(format) => {
                match decode_rgba8(self.payload.as_slice(), format) {
                    Ok((dw, dh, pixels)) => {
                        self.dimension = [dw, dh];
                        self.payload = pixels;
                        Some(())
                    },
                    Err(_) => None,
                }
            },
            None => {
                if str_eq(ext, "dxt1") || str_eq(ext, "dxt5") || str_eq(ext, "mp4") || str_eq(
                    ext,
                    "gif",
                ) || str_eq(ext, "rg88") || str_eq(ext, "r8") {
                    Some(())
                } else {
                    let w = self.dimension[0] as usize;
                    let h = self.dimension[1] as usize;
                    if self.payload.len() == w * h * 4 {
                        Some(())
                    } else {
                        None
                    }
                }
            },
        }
    }
}

// ── Laws of the mip chain ─────────────────────────────────────────────────

proof fn lemma_mip_dim_bounds(d: int, level: nat)
    requires
        d >= 0,
    ensures
        mip_dim(d, level) >= 0,
        level >= 1 ==> mip_dim(d, level) >= 1,
    decreases level,
{
    if level > 0 {
        lemma_mip_dim_bounds(d, (level - 1) as nat);
    }
}

proof fn lemma_mip_level_size_bounds(w: int, h: int, level: nat, bb: int)
    requires
        w >= 0,
        h >= 0,
        bb >= 0,
    ensures
        mip_level_size(w, h, level, bb) >= 0,
        level >= 1 && bb >= 8 ==> mip_level_size(w, h, level, bb) >= 8,
{
    lemma_mip_dim_bounds(w, level);
    lemma_mip_dim_bounds(h, level);
    let a = (mip_dim(w, level) + 3) / 4;
    let b = (mip_dim(h, level) + 3) / 4;
    assert(a * b * bb >= 0) by (nonlinear_arith)
        requires
            a >= 0,
            b >= 0,
            bb >= 0,
    ;
    if level >= 1 && bb >= 8 {
        assert(a * b * bb >= 8) by (nonlinear_arith)
            requires
                a >= 1,
                b >= 1,
                bb >= 8,
        ;
    }
}

proof fn lemma_mip_split_contiguous(
    p: Seq<u8>,
    w: int,
    h: int,
    bb: int,
    level: nat,
    count: nat,
    off: int,
)
    requires
        0 <= off <= p.len(),
        w >= 0,
        h >= 0,
        bb >= 0,
    ensures
        ({
            let f = mip_split(p, w, h, bb, level, count, off).flatten();
            off + f.len() <= p.len() && f == p.subrange(off, off + f.len())
        }),
        mip_split(p, w, h, bb, level, count, off).len() <= (if level <= count {
            count - level
        } else {
            0
        }),
    decreases count - level,
{
    if level < count {
        let size = mip_level_size(w, h, level, bb);
        lemma_mip_level_size_bounds(w, h, level, bb);
        if off + size <= p.len() {
            let piece = p.subrange(off, off + size);
            let rest = mip_split(p, w, h, bb, level + 1, count, off + size);
            let split = mip_split(p, w, h, bb, level, count, off);
            lemma_mip_split_contiguous(p, w, h, bb, level + 1, count, off + size);
            assert(split.drop_first() =~= rest);
        } else {
        }
    } else {
    }
}

/// Splitting the mip chain loses and reorders nothing: for a texture whose
/// levels are not split out yet, level 0 followed by the split-out levels is
/// the front of the original payload.
pub proof fn law_mip_chain_keeps_bytes(t: TexModel)
    requires
        t.mip_levels.len() == 0,
    ensures
        ({
            let r = spec_build_mip_chain(t);
            let kept = r.payload + r.mip_levels.flatten();
            kept.len() <= t.payload.len() && kept == t.payload.subrange(0, kept.len() as int)
        }),
{
    let r = spec_build_mip_chain(t);
    let bb = block_bytes(t.extension);
    let level0 = mip_level_size(t.width as int, t.height as int, 0, bb);
    if !splits_mip_chain(t) {
    } else {
        lemma_mip_level_size_bounds(t.width as int, t.height as int, 0, bb);
        lemma_mip_split_contiguous(
            t.payload,
            t.width as int,
            t.height as int,
            bb,
            1,
            t.mipmap_count as nat,
            level0,
        );
        let kept = r.payload + r.mip_levels.flatten();
    }
}

/// Building the mip chain twice is the same as building it once.
pub proof fn law_mip_chain_idempotent(t: TexModel)
    ensures
        spec_build_mip_chain(spec_build_mip_chain(t)) == spec_build_mip_chain(t),
{
    let r = spec_build_mip_chain(t);
    if splits_mip_chain(t) && r.mip_levels.len() == 0 {
        let bb = block_bytes(t.extension);
        let level0 = mip_level_size(t.width as int, t.height as int, 0, bb);
        lemma_mip_level_size_bounds(t.width as int, t.height as int, 0, bb);
        lemma_mip_level_size_bounds(t.width as int, t.height as int, 1, bb);
        let again = mip_split(
            r.payload,
            t.width as int,
            t.height as int,
            bb,
            1,
            t.mipmap_count as nat,
            level0,
        );
        assert(r.payload.subrange(0, level0) =~= r.payload);
    }
}

/// When the payload is split, the levels present never exceed the levels
/// advertised, and present plus missing levels make up the advertised count.
pub proof fn law_mip_counts_add_up(t: TexModel)
    requires
        splits_mip_chain(t),
    ensures
        ({
            let r = spec_build_mip_chain(t);
            &&& r.actual_mip_count == 1 + r.mip_levels.len()
            &&& r.actual_mip_count <= r.mipmap_count
            &&& r.actual_mip_count + spec_missing_mip_count(r) == r.mipmap_count
        }),
{
    let bb = block_bytes(t.extension);
    let level0 = mip_level_size(t.width as int, t.height as int, 0, bb);
    lemma_mip_level_size_bounds(t.width as int, t.height as int, 0, bb);
    lemma_mip_split_contiguous(
        t.payload,
        t.width as int,
        t.height as int,
        bb,
        1,
        t.mipmap_count as nat,
        level0,
    );
}

// ── Laws of conversion ────────────────────────────────────────────────────

/// A BCn texture decodes with the block compression its extension names:
/// `dxt1` as BC1 and `dxt5` as BC3, each block decoded to `w × h` RGBA
/// pixels which are then encoded as PNG.
pub proof fn law_bcn_textures_decode_by_extension(t: TexModel)
    requires
        t.extension == "dxt1"@ || t.extension == "dxt5"@,
        t.width > 0,
        t.height > 0,
    ensures
        ({
            let encoding = if t.extension == "dxt1"@ {
                BlockCompression::Bc1
            } else {
                BlockCompression::Bc3
            };
            let rgba = bcn_rgba(t.payload, t.width as usize, t.height as usize, encoding);
            let n = 4 * t.width * t.height;
            spec_parse_to_image(t) == if n > usize::MAX || n > rgba.len() {
                None
            } else {
                match png_rgba8(rgba.subrange(0, n), t.width, t.height) {
                    Some(png) => Some((png, "png"@)),
                    None => None,
                }
            }
        }),
{
    reveal_strlit("dxt1");
    reveal_strlit("dxt5");
    reveal_strlit("r8");
    reveal_strlit("rg88");
    assert("dxt1"@[3] != "dxt5"@[3]);
    assert("rg88"@[0] != "dxt1"@[0]);
    assert("r8"@.len() != "dxt1"@.len());
    if t.extension == "dxt1"@ {
        assert(spec_parse_to_image(t) == bcn_to_png(t, BlockCompression::Bc1));
    } else {
        assert(spec_parse_to_image(t) == bcn_to_png(t, BlockCompression::Bc3));
    }
}

/// An embedded image is decoded in the format its extension names — `png`
/// as PNG and `jpg` as JPEG — and the conversion succeeds exactly when that
/// decoding does; the texture then takes the decoded width, height and RGBA
/// pixels, and is otherwise left as it was.
pub proof fn law_embedded_images_decode_by_extension(t: TexModel)
    requires
        t.extension == "png"@ || t.extension == "jpg"@,
    ensures
        ({
            let format = if t.extension == "png"@ {
                EmbeddedImageFormat::Png
            } else {
                EmbeddedImageFormat::Jpeg
            };
            let (ok, r) = spec_parse_to_rgba(t);
            &&& ok == decoded_rgba8(t.payload, format) is Some
            &&& match decoded_rgba8(t.payload, format) {
                Some((w, h, px)) => r.width == w && r.height == h && r.payload == px
                    && r.extension == t.extension && r.mip_levels == t.mip_levels,
                None => r == t,
            }
        }),
{
    reveal_strlit("png");
    reveal_strlit("jpg");
    assert("png"@[0] != "jpg"@[0]);
}

/// A BCn texture advertising at least two mip levels, none split out yet,
/// whose payload holds level 0 and level 1 in full, keeps exactly level 0 in
/// its payload and gets level 1 as its first split-out level: level 0 takes
/// one block per 4×4 pixels of `w × h`, level 1 one per 4×4 pixels of the
/// halved dimensions (never below 1), 8 bytes a block for `dxt1` and 16 for
/// `dxt5`. At least two levels are then present.
pub proof fn law_mip_chain_splits_level_one(t: TexModel)
    requires
        t.extension == "dxt1"@ || t.extension == "dxt5"@,
        t.mipmap_count >= 2,
        t.mip_levels.len() == 0,
        ({
            let bb: int = if t.extension == "dxt1"@ { 8 } else { 16 };
            let w1: int = if t.width / 2 < 1 { 1 } else { (t.width / 2) as int };
            let h1: int = if t.height / 2 < 1 { 1 } else { (t.height / 2) as int };
            let l0 = ((t.width + 3) / 4) * ((t.height + 3) / 4) * bb;
            let l1 = ((w1 + 3) / 4) * ((h1 + 3) / 4) * bb;
            t.payload.len() >= l0 + l1
        }),
    ensures
        ({
            let bb: int = if t.extension == "dxt1"@ { 8 } else { 16 };
            let w1: int = if t.width / 2 < 1 { 1 } else { (t.width / 2) as int };
            let h1: int = if t.height / 2 < 1 { 1 } else { (t.height / 2) as int };
            let l0 = ((t.width + 3) / 4) * ((t.height + 3) / 4) * bb;
            let l1 = ((w1 + 3) / 4) * ((h1 + 3) / 4) * bb;
            let r = spec_build_mip_chain(t);
            &&& r.payload == t.payload.subrange(0, l0)
            &&& r.mip_levels.len() >= 1
            &&& r.mip_levels[0] == t.payload.subrange(l0, l0 + l1)
            &&& r.actual_mip_count >= 2
            &&& spec_missing_mip_count(r) == t.mipmap_count - r.actual_mip_count
        }),
{
    reveal_strlit("dxt1");
    reveal_strlit("dxt5");
    assert("dxt1"@[3] != "dxt5"@[3]);
    let bb = block_bytes(t.extension);
    let w = t.width as int;
    let h = t.height as int;
    assert(mip_dim(w, 0) == w && mip_dim(h, 0) == h);
    assert(mip_dim(w, 1) == if w / 2 < 1 { 1 } else { w / 2 });
    assert(mip_dim(h, 1) == if h / 2 < 1 { 1 } else { h / 2 });
    let l0 = mip_level_size(w, h, 0, bb);
    let l1 = mip_level_size(w, h, 1, bb);
    lemma_mip_level_size_bounds(w, h, 0, bb);
    lemma_mip_level_size_bounds(w, h, 1, bb);
    assert(splits_mip_chain(t));
    let levels = mip_split(t.payload, w, h, bb, 1, t.mipmap_count as nat, l0);
    assert(levels[0] == t.payload.subrange(l0, l0 + l1));
    lemma_mip_split_contiguous(t.payload, w, h, bb, 1, t.mipmap_count as nat, l0);
}

/// Single- and two-channel textures become grey RGBA images: an `r8` byte
/// `g` is the pixel `(g, g, g, 255)`, an `rg88` byte pair `(g, a)` is the
/// pixel `(g, g, g, a)`, one pixel after the other in payload order (a
/// trailing odd `rg88` byte is dropped), and the `w × h` image read from the
/// front of those pixels is encoded as PNG.
pub proof fn law_grey_textures_expand(t: TexModel)
    ensures
        t.extension == "r8"@ ==> {
            let q = expand_r8(t.payload);
            &&& spec_parse_to_image(t) == png_named(spec_raw_to_png(q, t.width, t.height))
            &&& q.len() == 4 * t.payload.len()
            &&& forall|k: int|
                0 <= k < t.payload.len() ==> {
                    &&& #[trigger] q[4 * k] == t.payload[k]
                    &&& q[4 * k + 1] == t.payload[k]
                    &&& q[4 * k + 2] == t.payload[k]
                    &&& q[4 * k + 3] == 255u8
                }
        },
        t.extension == "rg88"@ ==> {
            let q = expand_rg88(t.payload);
            &&& spec_parse_to_image(t) == png_named(spec_raw_to_png(q, t.width, t.height))
            &&& q.len() == 4 * (t.payload.len() / 2)
            &&& forall|k: int|
                0 <= k < t.payload.len() / 2 ==> {
                    &&& #[trigger] q[4 * k] == t.payload[2 * k]
                    &&& q[4 * k + 1] == t.payload[2 * k]
                    &&& q[4 * k + 2] == t.payload[2 * k]
                    &&& q[4 * k + 3] == t.payload[2 * k + 1]
                }
        },
{
    reveal_strlit("r8");
    reveal_strlit("rg88");
    assert("rg88"@.len() != "r8"@.len());
    let p = t.payload;
    let q = expand_r8(p);
    assert forall|k: int| 0 <= k < p.len() implies {
        &&& #[trigger] q[4 * k] == p[k]
        &&& q[4 * k + 1] == p[k]
        &&& q[4 * k + 2] == p[k]
        &&& q[4 * k + 3] == 255u8
    } by {
        assert((4 * k) / 4 == k && (4 * k + 1) / 4 == k && (4 * k + 2) / 4 == k);
        assert((4 * k) % 4 == 0 && (4 * k + 1) % 4 == 1 && (4 * k + 2) % 4 == 2 && (4 * k + 3) % 4
            == 3);
    }
    let q2 = expand_rg88(p);
    assert forall|k: int| 0 <= k < p.len() / 2 implies {
        &&& #[trigger] q2[4 * k] == p[2 * k]
        &&& q2[4 * k + 1] == p[2 * k]
        &&& q2[4 * k + 2] == p[2 * k]
        &&& q2[4 * k + 3] == p[2 * k + 1]
    } by {
        assert((4 * k) / 4 == k && (4 * k + 1) / 4 == k && (4 * k + 2) / 4 == k && (4 * k + 3) / 4
            == k);
        assert((4 * k) % 4 == 0 && (4 * k + 1) % 4 == 1 && (4 * k + 2) % 4 == 2 && (4 * k + 3) % 4
            == 3);
    }
}

/// Embedded JPEG, PNG, MP4 and GIF payloads are handed back unchanged, named
/// by the texture's extension.
pub proof fn law_embedded_payloads_pass_through(t: TexModel)
    requires
        t.extension == "jpg"@ || t.extension == "png"@ || t.extension == "mp4"@ || t.extension
            == "gif"@,
    ensures
        spec_parse_to_image(t) == Some((t.payload, t.extension)),
{
    reveal_strlit("jpg");
    reveal_strlit("png");
    reveal_strlit("mp4");
    reveal_strlit("gif");
    reveal_strlit("r8");
    reveal_strlit("rg88");
    reveal_strlit("dxt1");
    reveal_strlit("dxt5");
    let e = t.extension;
    assert(e.len() == 3);
    assert(e != "r8"@ && e != "rg88"@ && e != "dxt1"@ && e != "dxt5"@);
}

} // verus!
