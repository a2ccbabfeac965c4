//! Raster frames and the length-prefixed container that carries them.

use vstd::prelude::*;
use vstd::bytes::{spec_u32_to_le_bytes, spec_u64_to_le_bytes, u32_to_le_bytes, u64_to_le_bytes};

verus! {

/// The failure type of the `image` crate. Nothing is known of its contents.
#[verifier::external_type_specification]
#[verifier::external_body]
pub struct ExImageError(image::ImageError);

/// An RGBA raster: four bytes per pixel, rows top to bottom, pixels left to
/// right within a row.
#[derive(Clone, Debug)]
pub struct Frame {
    /// Width in pixels.
    pub width: u32,
    /// Height in pixels.
    pub height: u32,
    /// `4 * width * height` channel bytes.
    pub pixels: Vec<u8>,
}

impl Frame {
    /// Whether the buffer holds exactly one RGBA quadruple per pixel.
    pub open spec fn wf(&self) -> bool {
        self.pixels@.len() == 4 * self.width * self.height
    }
}

/// The PNG file that the encoder emits for an RGBA raster of the given width
/// and height, or `None` where it emits none.
pub uninterp spec fn png_encoding(width: u32, height: u32, rgba: Seq<u8>) -> Option<Seq<u8>>;

/// The width, height and RGBA bytes of the raster that a PNG file decodes to,
/// or `None` where the bytes do not decode.
pub uninterp spec fn png_decoding(bytes: Seq<u8>) -> Option<(u32, u32, Seq<u8>)>;

/// Encodes a frame as PNG: `image::ImageBuffer::from_raw` over the frame's
/// bytes, then `write_to` with `image::ImageOutputFormat::Png`. The bytes
/// written depend on the raster alone.
#[verifier::external_body]
pub(crate) fn png_encode(frame: &Frame) -> (r: Result<Vec<u8>, image::ImageError>)
    requires
        frame.wf(),
        frame.width >= 1,
        frame.height >= 1,
    ensures
        match r {
            Ok(bytes) => png_encoding(frame.width, frame.height, frame.pixels@) == Some(bytes@),
            Err(_) => png_encoding(frame.width, frame.height, frame.pixels@) is None,
        },
{
    let raster = image::ImageBuffer::<image::Rgba<u8>, &[u8]>::from_raw(
        frame.width,
        frame.height,
        frame.pixels.as_slice(),
    ).unwrap();
    let mut bytes = Vec::new();
    raster.write_to(&mut std::io::Cursor::new(&mut bytes), image::ImageOutputFormat::Png)?;
    Ok(bytes)
}

/// Decodes a PNG file to RGBA: `image::io::Reader::with_format` for
/// `image::ImageFormat::Png`, `no_limits`, `decode`, then `to_rgba8`. The
/// reader's default allocation cap is lifted because the encoder has none:
/// so a file that the encoder emits for a raster decodes, and, PNG being
/// lossless, to that raster only.
#[verifier::external_body]
pub(crate) fn png_decode(bytes: &[u8]) -> (r: Result<Frame, image::ImageError>)
    ensures
        match r {
            Ok(frame) => {
                &&& frame.wf()
                &&& png_decoding(bytes@) == Some((frame.width, frame.height, frame.pixels@))
                &&& forall|width: u32, height: u32, rgba: Seq<u8>|
                    #[trigger] png_encoding(width, height, rgba) == Some(bytes@) ==> width
                        == frame.width && height == frame.height && rgba == frame.pixels@
            },
            Err(_) => {
                &&& png_decoding(bytes@) is None
                &&& forall|width: u32, height: u32, rgba: Seq<u8>|
                    #[trigger] png_encoding(width, height, rgba) != Some(bytes@)
            },
        },
{
    let source = std::io::Cursor::new(bytes);
    let mut reader = image::io::Reader::with_format(source, image::ImageFormat::Png);
    reader.no_limits();
    let raster = reader.decode()?.to_rgba8();
    Ok(Frame { width: raster.width(), height: raster.height(), pixels: raster.into_raw() })
}

/// Blobs one after another, each behind its length as four little-endian
/// bytes.
pub open spec fn framed(blobs: Seq<Seq<u8>>) -> Seq<u8>
    decreases blobs.len(),
{
    if blobs.len() == 0 {
        Seq::<u8>::empty()
    } else {
        framed(blobs.drop_last()) + spec_u32_to_le_bytes(blobs.last().len() as u32) + blobs.last()
    }
}

/// The twelve bytes that open a container: the frame count as four
/// little-endian bytes, then the size of the original input as eight.
pub open spec fn container_header_bytes(frame_count: u32, original_size: u64) -> Seq<u8> {
    spec_u32_to_le_bytes(frame_count) + spec_u64_to_le_bytes(original_size)
}

/// The artifact of a frame codec: the header, then the framed blobs.
pub open spec fn container(original_size: u64, blobs: Seq<Seq<u8>>) -> Seq<u8> {
    container_header_bytes(blobs.len() as u32, original_size) + framed(blobs)
}

/// Framing one more blob appends its length and its bytes.
pub(crate) proof fn lemma_framed_take(blobs: Seq<Seq<u8>>, i: int)
    requires
        0 <= i < blobs.len(),
    ensures
        framed(blobs.take(i + 1)) == framed(blobs.take(i)) + spec_u32_to_le_bytes(
            blobs[i].len() as u32,
        ) + blobs[i],
{
    let next = blobs.take(i + 1);
    assert(next.drop_last() =~= blobs.take(i));
    assert(next.last() == blobs[i]);
}

/// The framing of the first `k` blobs opens the framing of all of them.
pub(crate) proof fn lemma_framed_prefix(blobs: Seq<Seq<u8>>, k: int)
    requires
        0 <= k <= blobs.len(),
    ensures
        framed(blobs.take(k)).len() <= framed(blobs).len(),
        framed(blobs).subrange(0, framed(blobs.take(k)).len() as int) == framed(blobs.take(k)),
    decreases blobs.len(),
{
    if k == blobs.len() {
        assert(blobs.take(k) =~= blobs);
        assert(framed(blobs).subrange(0, framed(blobs).len() as int) =~= framed(blobs));
    } else {
        let init = blobs.drop_last();
        assert(init.take(k) =~= blobs.take(k));
        lemma_framed_prefix(init, k);
        let n = framed(blobs.take(k)).len() as int;
        assert(framed(blobs).subrange(0, n) =~= framed(init).subrange(0, n));
    }
}

/// Starts a container: writes the frame count and the original size.
pub(crate) fn container_header(frame_count: u32, original_size: u64) -> (out: Vec<u8>)
    ensures
        out@ == container_header_bytes(frame_count, original_size),
{
    let mut out = u32_to_le_bytes(frame_count);
    let mut size = u64_to_le_bytes(original_size);
    out.append(&mut size);
    out
}

/// Appends one blob behind its four-byte length.
pub(crate) fn append_blob(out: &mut Vec<u8>, blob: &mut Vec<u8>)
    requires
        old(blob)@.len() <= u32::MAX,
    ensures
        final(out)@ == old(out)@ + spec_u32_to_le_bytes(old(blob)@.len() as u32) + old(blob)@,
{
    let mut prefix = u32_to_le_bytes(blob.len() as u32);
    out.append(&mut prefix);
    out.append(blob);
}

} // verus!
