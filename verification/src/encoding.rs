//! Encoding strategies and the artifacts that encoders emit.

use vstd::prelude::*;
use crate::error::Error;

verus! {

/// Colour spaces a colour codec may use.
#[derive(Clone, Copy, Debug, PartialEq, Eq, Structural)]
pub enum ColorSpace {
    RGB,
    YUV,
    HSV,
}

/// Error-correction levels of a 2D barcode, weakest first.
#[derive(Clone, Copy, Debug, PartialEq, Eq, Structural)]
pub enum ECCLevel {
    Low,
    Medium,
    Quartile,
    High,
}

/// Ways of hiding data in cover media.
#[derive(Clone, Copy, Debug, PartialEq, Eq, Structural)]
pub enum StegoMethod {
    LSB,
    DCT,
    DWT,
}

/// Compression codecs and their levels.
#[derive(Clone, Copy, Debug, PartialEq, Eq, Structural)]
#[allow(inconsistent_fields)]
pub enum CompressionCodec {
    Zstd { level: i32 },
    Gzip { level: u32 },
    Brotli { level: u32 },
    /// No compression: bytes pass through unchanged.
    Stored,
}

/// How bytes are re-expressed before they are stored.
#[derive(Debug)]
pub enum EncodingStrategy {
    /// Black and white macropixels in a sequence of raster frames.
    PixelEncoding { block_size: u32, fps: u32, resolution: (u32, u32) },
    /// Colour-valued pixels.
    ColorEncoding { color_space: ColorSpace },
    /// A sequence of 2D barcodes.
    QREncoding { version: u8, ecc_level: ECCLevel },
    /// Data hidden in cover media.
    Steganography { cover_media: String, method: StegoMethod },
    /// Compression only, for platforms that store bytes as they are.
    RawCompressed { codec: CompressionCodec },
    /// Nucleotide sequences.
    DNAEncoding,
    /// Several strategies combined.
    Hybrid { strategies: Vec<Box<EncodingStrategy>> },
}

/// What an encoder records about one run.
#[derive(Clone, Debug)]
pub struct EncodingMetadata {
    /// Size of the input in bytes.
    pub original_size: usize,
    /// Size of the artifact in bytes.
    pub encoded_size: usize,
    /// Name of the strategy that produced the artifact.
    pub strategy: String,
    /// Named numeric parameters of the run, in a fixed order.
    pub parameters: Vec<(String, u64)>,
}

/// The artifact of an encoder.
#[derive(Clone, Debug)]
pub struct EncodedData {
    /// The artifact's bytes.
    pub data: Vec<u8>,
    /// Name of the artifact's format.
    pub format: String,
    /// What the encoder recorded about the run.
    pub metadata: EncodingMetadata,
}

impl EncodedData {
    /// Wraps bytes received from storage as an artifact of unknown origin.
    pub fn from_bytes(data: Vec<u8>) -> (encoded: EncodedData)
        ensures
            encoded.data == data,
            encoded.metadata.encoded_size == data@.len(),
            encoded.metadata.original_size == 0,
    {
        let encoded_size = data.len();
        EncodedData {
            data,
            format: "encoded".to_string(),
            metadata: EncodingMetadata {
                original_size: 0,
                encoded_size,
                strategy: String::new(),
                parameters: Vec::new(),
            },
        }
    }
}

/// A reversible transformation of bytes into an artifact.
///
/// Implementations decide what the artifact is; nothing is assumed of them
/// here beyond their signatures.
pub trait Encoder {
    /// Transforms bytes into an artifact.
    fn encode(&self, data: &[u8]) -> Result<EncodedData, Error>;

    /// Recovers the bytes from an artifact.
    fn decode(&self, encoded: &EncodedData) -> Result<Vec<u8>, Error>;

    /// The strategy that the encoder implements.
    fn strategy(&self) -> EncodingStrategy;

    /// An estimate of the artifact's size for an input of the given size:
    /// by default, the input's size.
    fn estimate_size(&self, input_size: usize) -> (n: usize)
        default_ensures
            n == input_size,
    {
        input_size
    }
}

/// Narrows a wide number to `usize`, saturating at the largest value.
pub fn saturate(value: u128) -> (n: usize)
    ensures
        n == if value <= usize::MAX {
            value as int
        } else {
            usize::MAX as int
        },
{
    if value <= usize::MAX as u128 {
        value as usize
    } else {
        usize::MAX
    }
}

} // verus!
