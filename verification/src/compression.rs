//! Compression without re-expression, for platforms that store bytes as
//! they are.

use vstd::prelude::*;
use crate::encoding::{
    CompressionCodec, EncodedData, Encoder, EncodingMetadata, EncodingStrategy,
};
use crate::bits::copy_bytes;
use crate::error::Error;

verus! {

/// The zstd frame for the data at the given level, where there is one.
pub uninterp spec fn zstd_compressed(data: Seq<u8>, level: i32) -> Option<Seq<u8>>;

/// What a zstd frame decompresses to, where it does.
pub uninterp spec fn zstd_decompressed(data: Seq<u8>) -> Option<Seq<u8>>;

/// The gzip stream for the data at the given level, where there is one.
pub uninterp spec fn gzip_compressed(data: Seq<u8>, level: u32) -> Option<Seq<u8>>;

/// What a gzip stream decompresses to, where it does.
pub uninterp spec fn gzip_decompressed(data: Seq<u8>) -> Option<Seq<u8>>;

/// The brotli stream for the data at the given quality, where there is one.
pub uninterp spec fn brotli_compressed(data: Seq<u8>, level: u32) -> Option<Seq<u8>>;

/// What a brotli stream decompresses to, where it does.
pub uninterp spec fn brotli_decompressed(data: Seq<u8>) -> Option<Seq<u8>>;

/// Compresses with `zstd::encode_all`. The frame depends on data and level
/// alone.
#[verifier::external_body]
fn zstd_compress(data: &[u8], level: i32) -> (r: Option<Vec<u8>>)
    ensures
        match r {
            Some(out) => zstd_compressed(data@, level) == Some(out@),
            None => zstd_compressed(data@, level) is None,
        },
{
    zstd::encode_all(data, level).ok()
}

/// Decompresses with `zstd::decode_all`. The result depends on the frame
/// alone.
#[verifier::external_body]
fn zstd_decompress(data: &[u8]) -> (r: Option<Vec<u8>>)
    ensures
        match r {
            Some(out) => zstd_decompressed(data@) == Some(out@),
            None => zstd_decompressed(data@) is None,
        },
{
    zstd::decode_all(data).ok()
}

/// Compresses with `flate2::write::GzEncoder` (`new`, `write_all`,
/// `finish`). The stream depends on data and level alone.
#[verifier::external_body]
fn gzip_compress(data: &[u8], level: u32) -> (r: Option<Vec<u8>>)
    requires
        level <= 9,
    ensures
        match r {
            Some(out) => gzip_compressed(data@, level) == Some(out@),
            None => gzip_compressed(data@, level) is None,
        },
{
    let mut encoder = flate2::write::GzEncoder::new(Vec::new(), flate2::Compression::new(level));
    std::io::Write::write_all(&mut encoder, data).ok()?;
    encoder.finish().ok()
}

/// Decompresses with `flate2::read::GzDecoder` (`new`, `read_to_end`). The
/// result depends on the stream alone.
#[verifier::external_body]
fn gzip_decompress(data: &[u8]) -> (r: Option<Vec<u8>>)
    ensures
        match r {
            Some(out) => gzip_decompressed(data@) == Some(out@),
            None => gzip_decompressed(data@) is None,
        },
{
    let mut out = Vec::new();
    std::io::Read::read_to_end(&mut flate2::read::GzDecoder::new(data), &mut out).ok()?;
    Some(out)
}

/// Compresses with `brotli::CompressorWriter` (`new` with a 4096-byte
/// buffer and a window of 22 bits, `write_all`, then drop). The stream
/// depends on data and quality alone.
#[verifier::external_body]
fn brotli_compress(data: &[u8], level: u32) -> (r: Option<Vec<u8>>)
    requires
        level <= 11,
    ensures
        match r {
            Some(out) => brotli_compressed(data@, level) == Some(out@),
            None => brotli_compressed(data@, level) is None,
        },
{
    let mut out = Vec::new();
    let mut writer = brotli::CompressorWriter::new(&mut out, 4096, level, 22);
    std::io::Write::write_all(&mut writer, data).ok()?;
    drop(writer);
    Some(out)
}

/// Decompresses with `brotli::Decompressor` (`new` with a 4096-byte
/// buffer, `read_to_end`). The result depends on the stream alone.
#[verifier::external_body]
fn brotli_decompress(data: &[u8]) -> (r: Option<Vec<u8>>)
    ensures
        match r {
            Some(out) => brotli_decompressed(data@) == Some(out@),
            None => brotli_decompressed(data@) is None,
        },
{
    let mut out = Vec::new();
    std::io::Read::read_to_end(&mut brotli::Decompressor::new(data, 4096), &mut out).ok()?;
    Some(out)
}

/// What a codec compresses data to: `Config` for a gzip level above 9 or a
/// brotli quality above 11, `CodecFormat` where the compressor fails.
pub open spec fn compressed(codec: CompressionCodec, data: Seq<u8>) -> Result<Seq<u8>, Error> {
    match codec {
        CompressionCodec::Zstd { level } => match zstd_compressed(data, level) {
            Some(out) => Ok(out),
            None => Err(Error::CodecFormat),
        },
        CompressionCodec::Gzip { level } => if level > 9 {
            Err(Error::Config)
        } else {
            match gzip_compressed(data, level) {
                Some(out) => Ok(out),
                None => Err(Error::CodecFormat),
            }
        },
        CompressionCodec::Brotli { level } => if level > 11 {
            Err(Error::Config)
        } else {
            match brotli_compressed(data, level) {
                Some(out) => Ok(out),
                None => Err(Error::CodecFormat),
            }
        },
        CompressionCodec::Stored => Ok(data),
    }
}

/// What a codec decompresses data to: `CodecDecode` where the decompressor
/// fails.
pub open spec fn decompressed(codec: CompressionCodec, data: Seq<u8>) -> Result<Seq<u8>, Error> {
    let out = match codec {
        CompressionCodec::Zstd { .. } => zstd_decompressed(data),
        CompressionCodec::Gzip { .. } => gzip_decompressed(data),
        CompressionCodec::Brotli { .. } => brotli_decompressed(data),
        CompressionCodec::Stored => Some(data),
    };
    match out {
        Some(bytes) => Ok(bytes),
        None => Err(Error::CodecDecode),
    }
}

/// The compression codec.
#[derive(Clone, Copy, Debug)]
pub struct CompressionEncoder {
    codec: CompressionCodec,
}

impl CompressionEncoder {
    /// The codec in use.
    pub closed spec fn codec(&self) -> CompressionCodec {
        self.codec
    }

    /// Compression with zstd at the given level.
    pub fn zstd(level: i32) -> (encoder: CompressionEncoder)
        ensures
            encoder.codec() == (CompressionCodec::Zstd { level }),
    {
        CompressionEncoder { codec: CompressionCodec::Zstd { level } }
    }

    /// Compression with gzip at the given level.
    pub fn gzip(level: u32) -> (encoder: CompressionEncoder)
        ensures
            encoder.codec() == (CompressionCodec::Gzip { level }),
    {
        CompressionEncoder { codec: CompressionCodec::Gzip { level } }
    }

    /// Compression with brotli at the given quality.
    pub fn brotli(level: u32) -> (encoder: CompressionEncoder)
        ensures
            encoder.codec() == (CompressionCodec::Brotli { level }),
    {
        CompressionEncoder { codec: CompressionCodec::Brotli { level } }
    }

    /// No compression: bytes pass through.
    pub fn none() -> (encoder: CompressionEncoder)
        ensures
            encoder.codec() == CompressionCodec::Stored,
    {
        CompressionEncoder { codec: CompressionCodec::Stored }
    }

    /// Compresses with the codec in use.
    pub fn compress(&self, data: &[u8]) -> (r: Result<Vec<u8>, Error>)
        ensures
            match r {
                Ok(out) => compressed(self.codec(), data@) == Ok::<Seq<u8>, Error>(out@),
                Err(e) => compressed(self.codec(), data@) == Err::<Seq<u8>, Error>(e),
            },
    {
        let out = match self.codec {
            CompressionCodec::Zstd { level } => zstd_compress(data, level),
            CompressionCodec::Gzip { level } => {
                if level > 9 {
                    return Err(Error::Config);
                }
                gzip_compress(data, level)
            },
            CompressionCodec::Brotli { level } => {
                if level > 11 {
                    return Err(Error::Config);
                }
                brotli_compress(data, level)
            },
            CompressionCodec::Stored => Some(copy_bytes(data)),
        };
        match out {
            Some(bytes) => Ok(bytes),
            None => Err(Error::CodecFormat),
        }
    }

    /// Decompresses with the codec in use.
    pub fn decompress(&self, data: &[u8]) -> (r: Result<Vec<u8>, Error>)
        ensures
            match r {
                Ok(out) => decompressed(self.codec(), data@) == Ok::<Seq<u8>, Error>(out@),
                Err(e) => decompressed(self.codec(), data@) == Err::<Seq<u8>, Error>(e),
            },
    {
        let out = match self.codec {
            CompressionCodec::Zstd { .. } => zstd_decompress(data),
            CompressionCodec::Gzip { .. } => gzip_decompress(data),
            CompressionCodec::Brotli { .. } => brotli_decompress(data),
            CompressionCodec::Stored => Some(copy_bytes(data)),
        };
        match out {
            Some(bytes) => Ok(bytes),
            None => Err(Error::CodecDecode),
        }
    }

    /// The estimate for an input of the given size: a third for zstd and
    /// brotli, half for gzip, all of it without compression.
    pub open spec fn spec_estimate_size(&self, input_size: usize) -> int {
        match self.codec() {
            CompressionCodec::Zstd { .. } => input_size as int / 3,
            CompressionCodec::Gzip { .. } => input_size as int / 2,
            CompressionCodec::Brotli { .. } => input_size as int / 3,
            CompressionCodec::Stored => input_size as int,
        }
    }
}

impl Default for CompressionEncoder {
    /// Compression with zstd at level 3.
    fn default() -> (encoder: CompressionEncoder)
        ensures
            encoder.codec() == (CompressionCodec::Zstd { level: 3 }),
    {
        CompressionEncoder::zstd(3)
    }
}

impl Encoder for CompressionEncoder {
    /// Compresses `data`; the artifact is the compressed bytes.
    fn encode(&self, data: &[u8]) -> (r: Result<EncodedData, Error>)
        ensures
            match r {
                Ok(encoded) => {
                    &&& compressed(self.codec(), data@) == Ok::<Seq<u8>, Error>(encoded.data@)
                    &&& encoded.metadata.original_size == data@.len()
                    &&& encoded.metadata.encoded_size == encoded.data@.len()
                    &&& encoded.format@ == "compressed"@
                    &&& encoded.metadata.strategy@ == "compression"@
                },
                Err(e) => compressed(self.codec(), data@) == Err::<Seq<u8>, Error>(e),
            },
    {
        let out = self.compress(data)?;
        let encoded_size = out.len();
        let mut parameters: Vec<(String, u64)> = Vec::new();
        match self.codec {
            CompressionCodec::Zstd { level } => {
                parameters.push(("zstd".to_owned(), if level >= 0 { level as u64 } else { 0 }));
            },
            CompressionCodec::Gzip { level } => {
                parameters.push(("gzip".to_owned(), level as u64));
            },
            CompressionCodec::Brotli { level } => {
                parameters.push(("brotli".to_owned(), level as u64));
            },
            CompressionCodec::Stored => {
                parameters.push(("none".to_owned(), 0));
            },
        }
        Ok(
            EncodedData {
                data: out,
                format: "compressed".to_owned(),
                metadata: EncodingMetadata {
                    original_size: data.len(),
                    encoded_size,
                    strategy: "compression".to_owned(),
                    parameters,
                },
            },
        )
    }

    /// Decompresses an artifact.
    fn decode(&self, encoded: &EncodedData) -> (r: Result<Vec<u8>, Error>)
        ensures
            match r {
                Ok(out) => decompressed(self.codec(), encoded.data@) == Ok::<Seq<u8>, Error>(out@),
                Err(e) => decompressed(self.codec(), encoded.data@) == Err::<Seq<u8>, Error>(e),
            },
    {
        self.decompress(encoded.data.as_slice())
    }

    /// Raw compression with zstd at level 3.
    fn strategy(&self) -> (s: EncodingStrategy)
        ensures
            s == (EncodingStrategy::RawCompressed { codec: CompressionCodec::Zstd { level: 3 } }),
    {
        EncodingStrategy::RawCompressed { codec: CompressionCodec::Zstd { level: 3 } }
    }

    /// Estimates the size of the artifact.
    fn estimate_size(&self, input_size: usize) -> (n: usize)
        ensures
            n == self.spec_estimate_size(input_size),
    {
        match self.codec {
            CompressionCodec::Zstd { .. } => input_size / 3,
            CompressionCodec::Gzip { .. } => input_size / 2,
            CompressionCodec::Brotli { .. } => input_size / 3,
            CompressionCodec::Stored => input_size,
        }
    }
}

} // verus!
