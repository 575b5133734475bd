//! The outside codecs the parsers call: LZ4 block decompression, BCn
//! (DXT1/DXT5) block decoding, PNG/JPEG decoding, PNG encoding and GIF
//! decoding. Each is a trusted item: its contract is believed, not proved.
//! Every result here is a pure function of the arguments, so each gets a
//! name; what the libraries document beyond that is stated beside it.
use vstd::prelude::*;

verus! {

#[verifier::external_type_specification]
#[verifier::external_body]
pub struct ExDecompressError(lz4_flex::block::DecompressError);

#[verifier::external_type_specification]
#[verifier::external_body]
pub struct ExBcnError(bcndecode::Error);

#[verifier::external_type_specification]
#[verifier::external_body]
pub struct ExImageError(image::ImageError);

// ── LZ4 ───────────────────────────────────────────────────────────────────

/// What `lz4_flex::block::decompress(input, min_uncompressed_size)` yields:
/// the decompressed block, or `None` when it reports an error.
pub uninterp spec fn lz4_block_decompress(input: Seq<u8>, min_uncompressed_size: usize) -> Option<
    Seq<u8>,
>;

/// Trusted wrapper of `lz4_flex::block::decompress` (safe decoder). Claims
/// the result is the named decompression of `input`, and, as the source
/// shows (an output buffer of `min_uncompressed_size` bytes, truncated to
/// what was written), that it is no longer than `min_uncompressed_size`.
#[verifier::external_body]
pub(crate) fn lz4_decompress(input: &[u8], min_uncompressed_size: usize) -> (r: Result<
    Vec<u8>,
    lz4_flex::block::DecompressError,
>)
    ensures
        r is Ok <==> lz4_block_decompress(input@, min_uncompressed_size) is Some,
        r matches Ok(v) ==> Some(v@) == lz4_block_decompress(input@, min_uncompressed_size)
            && v@.len() <= min_uncompressed_size,
{
    lz4_flex::block::decompress(input, min_uncompressed_size)
}

// ── BCn ───────────────────────────────────────────────────────────────────

/// The two block compressions the texture format uses.
#[derive(Debug, Clone, Copy, PartialEq, Eq)]
pub enum BlockCompression {
    /// BC1 / DXT1: 8 bytes per 4×4 block.
    Bc1,
    /// BC3 / DXT5: 16 bytes per 4×4 block.
    Bc3,
}

/// The RGBA pixels `bcndecode::decode` produces for `source`.
pub uninterp spec fn bcn_rgba(
    source: Seq<u8>,
    width: usize,
    height: usize,
    encoding: BlockCompression,
) -> Seq<u8>;

/// Trusted wrapper of `bcndecode::decode` with RGBA output. Claims what the
/// source shows: it fails exactly when a dimension is zero, and otherwise
/// returns a buffer of `4 * width * height` bytes, the named decoding. The
/// size computation would overflow beyond `usize`, so that is excluded.
#[verifier::external_body]
pub(crate) fn bcn_decode_rgba(
    source: &[u8],
    width: usize,
    height: usize,
    encoding: BlockCompression,
) -> (r: Result<Vec<u8>, bcndecode::Error>)
    requires
        4 * width * height <= usize::MAX,
    ensures
        r is Ok <==> (width > 0 && height > 0),
        r matches Ok(v) ==> v@ == bcn_rgba(source@, width, height, encoding) && v@.len() == 4
            * width * height,
{
    let encoding = match encoding {
        BlockCompression::Bc1 => bcndecode::BcnEncoding::Bc1,
        BlockCompression::Bc3 => bcndecode::BcnEncoding::Bc3,
    };
    bcndecode::decode(source, width, height, encoding, bcndecode::BcnDecoderFormat::RGBA)
}

// ── PNG encoding ──────────────────────────────────────────────────────────

/// The PNG file that `image::write_buffer_with_format` writes for an RGBA8
/// image, or `None` when it reports an error.
pub uninterp spec fn png_rgba8(pixels: Seq<u8>, width: u32, height: u32) -> Option<Seq<u8>>;

/// Trusted wrapper of `image::write_buffer_with_format` (PNG, RGBA8, into an
/// in-memory buffer). Claims the bytes written are the named encoding. The
/// encoder asserts that the buffer holds exactly `4 * width * height` bytes,
/// so that is required.
#[verifier::external_body]
pub(crate) fn encode_png_rgba8(pixels: &[u8], width: u32, height: u32) -> (r: Result<
    Vec<u8>,
    image::ImageError,
>)
    requires
        pixels@.len() == 4 * width * height,
    ensures
        r is Ok <==> png_rgba8(pixels@, width, height) is Some,
        r matches Ok(v) ==> Some(v@) == png_rgba8(pixels@, width, height),
{
    let mut out: Vec<u8> = Vec::new();
    image::write_buffer_with_format(
        &mut std::io::Cursor::new(&mut out),
        pixels,
        width,
        height,
        image::ExtendedColorType::Rgba8,
        image::ImageFormat::Png,
    )?;
    Ok(out)
}

// ── PNG / JPEG decoding ───────────────────────────────────────────────────

/// The embedded image formats a texture may carry.
#[derive(Debug, Clone, Copy, PartialEq, Eq)]
pub enum EmbeddedImageFormat {
    Png,
    Jpeg,
}

/// What `image::load_from_memory_with_format` decodes from `bytes`, as
/// RGBA8: width, height and pixels; `None` when it reports an error.
pub uninterp spec fn decoded_rgba8(bytes: Seq<u8>, format: EmbeddedImageFormat) -> Option<
    (u32, u32, Seq<u8>),
>;

/// Trusted wrapper of `image::load_from_memory_with_format`, its result
/// converted to RGBA8 and taken apart into dimensions and pixels. Claims the
/// result is the named decoding, and, as the source shows (decoders fill a
/// buffer of exactly `width * height` pixels, and `into_rgba8` keeps or
/// converts it pixel for pixel), that there are `4 * w * h` pixel bytes.
#[verifier::external_body]
pub(crate) fn decode_rgba8(bytes: &[u8], format: EmbeddedImageFormat) -> (r: Result<
    (u32, u32, Vec<u8>),
    image::ImageError,
>)
    ensures
        r is Ok <==> decoded_rgba8(bytes@, format) is Some,
        r matches Ok((w, h, px)) ==> decoded_rgba8(bytes@, format) == Some((w, h, px@))
            && px@.len() == 4 * w * h,
{
    let format = match format {
        EmbeddedImageFormat::Png => image::ImageFormat::Png,
        EmbeddedImageFormat::Jpeg => image::ImageFormat::Jpeg,
    };
    let img = image::load_from_memory_with_format(bytes, format)?.into_rgba8();
    let (w, h) = img.dimensions();
    Ok((w, h, img.into_raw()))
}

// ── GIF decoding ──────────────────────────────────────────────────────────

/// What `image::codecs::gif::GifDecoder` makes of `bytes`: `None` when the
/// decoder cannot be built; otherwise the logical screen dimensions, and
/// the frames (width, height, RGBA pixels each) or `None` when collecting
/// them fails.
pub uninterp spec fn gif_decoding(bytes: Seq<u8>) -> Option<
    ((u32, u32), Option<Seq<(u32, u32, Seq<u8>)>>),
>;

/// Trusted wrapper of `GifDecoder::new` on an in-memory reader, followed by
/// `dimensions` and `into_frames().collect_frames()` with each frame taken
/// apart into its buffer's width, height and pixels. Claims the result is
/// the named decoding.
#[verifier::external_body]
pub(crate) fn decode_gif(bytes: &[u8]) -> (r: Option<
    ((u32, u32), Option<Vec<(u32, u32, Vec<u8>)>>),
>)
    ensures
        r.deep_view() == gif_decoding(bytes@),
{
    let decoder = image::codecs::gif::GifDecoder::new(std::io::Cursor::new(bytes)).ok()?;
    let dims = image::ImageDecoder::dimensions(&decoder);
    let frames = image::AnimationDecoder::into_frames(decoder).collect_frames().ok().map(
        |frames| frames.into_iter().map(|f| {
            let b = f.into_buffer();
            (b.width(), b.height(), b.into_raw())
        }).collect(),
    );
    Some((dims, frames))
}

} // verus!
