//! The barcode-grid codec: bytes as a sequence of 2D barcodes that carry
//! their own error correction.

use vstd::prelude::*;
use crate::bits::{chunk_at, chunk_count};
use crate::encoding::{saturate, ECCLevel, EncodedData, Encoder, EncodingMetadata, EncodingStrategy};
use crate::error::Error;
use crate::frame::{
    append_blob, container, container_header, container_header_bytes, framed, png_encode,
    png_encoding, Frame,
};

verus! {

/// The number that stands for an error-correction level: 0 for the weakest
/// to 3 for the strongest.
pub open spec fn ecc_code(level: ECCLevel) -> u8 {
    match level {
        ECCLevel::Low => 0,
        ECCLevel::Medium => 1,
        ECCLevel::Quartile => 2,
        ECCLevel::High => 3,
    }
}

/// The width, height and grey values of the barcode rendered for a chunk
/// at an error-correction level, or `None` where the chunk has no barcode.
pub uninterp spec fn qr_image(chunk: Seq<u8>, level: u8) -> Option<(u32, u32, Seq<u8>)>;

/// Renders a chunk with `qrcode::QrCode::with_error_correction_level`,
/// then `render` as 8-bit grey with `min_dimensions(512, 512)` and `build`.
/// The image depends on chunk and level alone, is at least 512 pixels wide
/// and high, and has one grey value a pixel.
#[verifier::external_body]
fn qr_render(chunk: &[u8], level: ECCLevel) -> (r: Option<(u32, u32, Vec<u8>)>)
    ensures
        match r {
            Some((width, height, luma)) => {
                &&& qr_image(chunk@, ecc_code(level)) == Some((width, height, luma@))
                &&& width >= 512
                &&& height >= 512
                &&& luma@.len() == width * height
            },
            None => qr_image(chunk@, ecc_code(level)) is None,
        },
{
    let level = match level {
        ECCLevel::Low => qrcode::EcLevel::L,
        ECCLevel::Medium => qrcode::EcLevel::M,
        ECCLevel::Quartile => qrcode::EcLevel::Q,
        ECCLevel::High => qrcode::EcLevel::H,
    };
    let code = qrcode::QrCode::with_error_correction_level(chunk, level).ok()?;
    let image = code.render::<image::Luma<u8>>().min_dimensions(512, 512).build();
    Some((image.width(), image.height(), image.into_raw()))
}

/// The RGBA bytes of a grey image: every grey value three times, then an
/// opaque alpha.
pub open spec fn rgba_of_luma(luma: Seq<u8>) -> Seq<u8> {
    Seq::new(
        4 * luma.len(),
        |p: int|
            if p % 4 == 3 {
                255u8
            } else {
                luma[p / 4]
            },
    )
}

/// The barcode-grid codec and its parameters.
#[derive(Clone, Copy, Debug)]
pub struct QREncoder {
    /// Largest number of bytes that one barcode carries.
    pub max_bytes_per_qr: usize,
    /// Requested error-correction level.
    pub ecc_level: ECCLevel,
}

impl QREncoder {
    /// The PNG file of the barcode of a chunk, where there is one: the
    /// barcode's image must fit in memory as RGBA, and the PNG encoder must
    /// emit a file for it.
    pub open spec fn chunk_blob(&self, chunk: Seq<u8>) -> Option<Seq<u8>> {
        match qr_image(chunk, ecc_code(self.ecc_level)) {
            Some((width, height, luma)) => if 4 * luma.len() <= usize::MAX {
                png_encoding(width, height, rgba_of_luma(luma))
            } else {
                None
            },
            None => None,
        }
    }

    /// The PNG files of the barcodes of all chunks of `data`, in order.
    pub open spec fn blobs(&self, data: Seq<u8>) -> Seq<Seq<u8>> {
        Seq::new(
            chunk_count(data.len() as int, self.max_bytes_per_qr as int) as nat,
            |i: int| self.chunk_blob(chunk_at(data, self.max_bytes_per_qr as int, i)).unwrap(),
        )
    }

    /// Whether a container can carry the barcodes of `data`.
    pub open spec fn encodable(&self, data: Seq<u8>) -> bool {
        &&& data.len() <= u64::MAX
        &&& chunk_count(data.len() as int, self.max_bytes_per_qr as int) <= u32::MAX
        &&& forall|i: int|
            0 <= i < chunk_count(data.len() as int, self.max_bytes_per_qr as int) ==> {
                &&& (#[trigger] self.chunk_blob(
                    chunk_at(data, self.max_bytes_per_qr as int, i),
                )) is Some
                &&& self.chunk_blob(chunk_at(data, self.max_bytes_per_qr as int, i)).unwrap().len()
                    <= u32::MAX
            }
    }

    /// The artifact for `data`, or the reason there is none: `Config` for a
    /// codec whose barcodes carry no byte, `CodecFormat` where a container
    /// cannot carry the barcodes.
    pub open spec fn spec_encode(&self, data: Seq<u8>) -> Result<Seq<u8>, Error> {
        if self.max_bytes_per_qr == 0 {
            Err(Error::Config)
        } else if !self.encodable(data) {
            Err(Error::CodecFormat)
        } else {
            Ok(container(data.len() as u64, self.blobs(data)))
        }
    }

    /// The estimate for an input of the given size: one mebibyte a
    /// barcode; saturating, and zero for a codec whose barcodes carry no
    /// byte.
    pub open spec fn spec_estimate_size(&self, input_size: usize) -> int {
        if self.max_bytes_per_qr == 0 {
            0
        } else {
            let estimate = chunk_count(input_size as int, self.max_bytes_per_qr as int) * 1048576;
            if estimate <= usize::MAX {
                estimate
            } else {
                usize::MAX as int
            }
        }
    }

    /// The default codec: at most 2000 bytes a barcode, at the medium
    /// error-correction level.
    pub open spec fn spec_default() -> QREncoder {
        QREncoder { max_bytes_per_qr: 2000, ecc_level: ECCLevel::Medium }
    }

    /// The default codec.
    pub fn new() -> (encoder: QREncoder)
        ensures
            encoder == Self::spec_default(),
    {
        QREncoder { max_bytes_per_qr: 2000, ecc_level: ECCLevel::Medium }
    }

    /// The same codec with another error-correction level.
    pub fn with_ecc_level(self, ecc_level: ECCLevel) -> (encoder: QREncoder)
        ensures
            encoder == (QREncoder { ecc_level, ..self }),
    {
        QREncoder { ecc_level, ..self }
    }

    /// Renders the barcode of one chunk as an RGBA frame.
    pub fn encode_chunk(&self, chunk: &[u8]) -> (r: Option<Frame>)
        ensures
            match qr_image(chunk@, ecc_code(self.ecc_level)) {
                Some((width, height, luma)) => match r {
                    Some(frame) => {
                        &&& frame.wf()
                        &&& frame.width == width
                        &&& frame.height == height
                        &&& frame.pixels@ == rgba_of_luma(luma)
                        &&& width >= 512
                        &&& height >= 512
                        &&& 4 * luma.len() <= usize::MAX
                    },
                    None => 4 * luma.len() > usize::MAX,
                },
                None => r is None,
            },
    {
        let (width, height, luma) = match qr_render(chunk, self.ecc_level) {
            Some(image) => image,
            None => {
                return None;
            },
        };
        if luma.len() > usize::MAX / 4 {
            return None;
        }
        let ghost expected = rgba_of_luma(luma@);
        let mut pixels: Vec<u8> = Vec::with_capacity(4 * luma.len());
        let mut i: usize = 0;
        while i < luma.len()
            invariant
                i <= luma@.len(),
                4 * luma@.len() <= usize::MAX,
                expected == rgba_of_luma(luma@),
                pixels@ == expected.subrange(0, 4 * i),
            decreases luma@.len() - i,
        {
            let grey = luma[i];
            pixels.push(grey);
            pixels.push(grey);
            pixels.push(grey);
            pixels.push(255);
            assert(pixels@ =~= expected.subrange(0, 4 * (i + 1)));
            i += 1;
        }
        assert(pixels@ == expected);
        assert(4 * width * height == 4 * (width * height)) by (nonlinear_arith);
        Some(Frame { width, height, pixels })
    }
}

impl Default for QREncoder {
    /// The default codec.
    fn default() -> (encoder: QREncoder)
        ensures
            encoder.max_bytes_per_qr == 2000,
            encoder.ecc_level == ECCLevel::Medium,
    {
        QREncoder::new()
    }
}

impl Encoder for QREncoder {
    /// Encodes `data` as a container of PNG barcodes.
    fn encode(&self, data: &[u8]) -> (r: Result<EncodedData, Error>)
        ensures
            match r {
                Ok(encoded) => {
                    &&& self.spec_encode(data@) == Ok::<Seq<u8>, Error>(encoded.data@)
                    &&& encoded.metadata.original_size == data@.len()
                    &&& encoded.metadata.encoded_size == encoded.data@.len()
                    &&& encoded.format@ == "qr_sequence"@
                    &&& encoded.metadata.strategy@ == "qr"@
                },
                Err(e) => self.spec_encode(data@) == Err::<Seq<u8>, Error>(e),
            },
    {
        let max = self.max_bytes_per_qr;
        if max == 0 {
            return Err(Error::Config);
        }
        let len = data.len();
        let wide_count = (len / max) as u128 + (if len % max == 0 { 0u128 } else { 1u128 });
        if wide_count > u32::MAX as u128 {
            return Err(Error::CodecFormat);
        }
        let count = wide_count as u32;
        let ghost blobs = self.blobs(data@);
        let ghost header = container_header_bytes(count, len as u64);
        let mut out = container_header(count, len as u64);
        let mut i: u32 = 0;
        let mut start: usize = 0;
        proof {
            assert(blobs.take(0) =~= Seq::<Seq<u8>>::empty());
            assert(out@ =~= header + framed(blobs.take(0)));
            assert(0 * max == 0);
            vstd::arithmetic::div_mod::lemma_fundamental_div_mod(len as int, max as int);
        }
        while i < count
            invariant
                max == self.max_bytes_per_qr,
                max > 0,
                len == data@.len(),
                len == max * (len / max) + len % max,
                0 <= len % max < max,
                count == chunk_count(len as int, max as int),
                blobs == self.blobs(data@),
                header == container_header_bytes(count, len as u64),
                i <= count,
                i < count ==> start == i * max && start < len,
                out@ == header + framed(blobs.take(i as int)),
                forall|g: int|
                    0 <= g < i ==> {
                        &&& (#[trigger] self.chunk_blob(chunk_at(data@, max as int, g))) is Some
                        &&& self.chunk_blob(chunk_at(data@, max as int, g)).unwrap().len()
                            <= u32::MAX
                    },
            decreases count - i,
        {
            let end = if len - start > max {
                start + max
            } else {
                len
            };
            proof {
                assert((i + 1) * max == i * max + max) by (nonlinear_arith);
                assert(i + 1 < count ==> (i + 1) * max < len) by (nonlinear_arith)
                    requires
                        len == max * (len / max) + len % max,
                        0 <= len % max < max,
                        count <= len / max + 1,
                        len % max == 0 ==> count == len / max,
                        max > 0,
                        i >= 0,
                ;
            }
            let chunk = vstd::slice::slice_subrange(data, start, end);
            assert(chunk@ == chunk_at(data@, max as int, i as int));
            let frame = match self.encode_chunk(chunk) {
                Some(frame) => frame,
                None => {
                    assert(self.chunk_blob(chunk@) is None);
                    return Err(Error::CodecFormat);
                },
            };
            let mut blob = match png_encode(&frame) {
                Ok(blob) => blob,
                Err(_) => {
                    assert(self.chunk_blob(chunk@) is None);
                    return Err(Error::CodecFormat);
                },
            };
            assert(self.chunk_blob(chunk@) == Some(blob@));
            if blob.len() > u32::MAX as usize {
                return Err(Error::CodecFormat);
            }
            proof {
                let next = blobs.take(i + 1);
                assert(next.drop_last() =~= blobs.take(i as int));
                assert(next.last() == blob@);
            }
            append_blob(&mut out, &mut blob);
            assert(out@ =~= header + framed(blobs.take(i + 1)));
            start = end;
            i += 1;
        }
        assert(blobs.take(count as int) =~= blobs);
        let encoded_size = out.len();
        let mut parameters: Vec<(String, u64)> = Vec::new();
        parameters.push(("qr_count".to_owned(), count as u64));
        parameters.push(("max_bytes_per_qr".to_owned(), max as u64));
        Ok(
            EncodedData {
                data: out,
                format: "qr_sequence".to_owned(),
                metadata: EncodingMetadata {
                    original_size: len,
                    encoded_size,
                    strategy: "qr".to_owned(),
                    parameters,
                },
            },
        )
    }

    /// Always fails with `CodecUnimplemented`: there is no barcode scanner.
    fn decode(&self, encoded: &EncodedData) -> (r: Result<Vec<u8>, Error>)
        ensures
            r is Err,
            r->Err_0 == Error::CodecUnimplemented,
    {
        Err(Error::CodecUnimplemented)
    }

    /// Barcode encoding at the largest version and the medium
    /// error-correction level.
    fn strategy(&self) -> (s: EncodingStrategy)
        ensures
            s == (EncodingStrategy::QREncoding { version: 40, ecc_level: ECCLevel::Medium }),
    {
        EncodingStrategy::QREncoding { version: 40, ecc_level: ECCLevel::Medium }
    }

    /// Estimates the size of the artifact.
    fn estimate_size(&self, input_size: usize) -> (n: usize)
        ensures
            n == self.spec_estimate_size(input_size),
    {
        let max = self.max_bytes_per_qr;
        if max == 0 {
            return 0;
        }
        let count = (input_size / max) as u128 + (if input_size % max == 0 { 0u128 } else { 1u128 });
        saturate(count * 1048576)
    }
}

} // verus!
