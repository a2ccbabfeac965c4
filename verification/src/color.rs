//! The colour codec, which exists by name only.

use vstd::prelude::*;
use crate::encoding::{ColorSpace, EncodedData, Encoder, EncodingStrategy};
use crate::error::Error;

verus! {

/// The colour codec. It has no parameters and encodes nothing yet.
#[derive(Clone, Copy, Debug)]
pub struct ColorEncoder {}

impl ColorEncoder {
    /// The colour codec.
    pub fn new() -> ColorEncoder {
        ColorEncoder {  }
    }
}

impl Default for ColorEncoder {
    fn default() -> ColorEncoder {
        ColorEncoder::new()
    }
}

impl Encoder for ColorEncoder {
    /// Always fails with `CodecUnimplemented`.
    fn encode(&self, data: &[u8]) -> (r: Result<EncodedData, Error>)
        ensures
            r is Err,
            r->Err_0 == Error::CodecUnimplemented,
    {
        Err(Error::CodecUnimplemented)
    }

    /// Always fails with `CodecUnimplemented`.
    fn decode(&self, encoded: &EncodedData) -> (r: Result<Vec<u8>, Error>)
        ensures
            r is Err,
            r->Err_0 == Error::CodecUnimplemented,
    {
        Err(Error::CodecUnimplemented)
    }

    /// Colour encoding in RGB.
    fn strategy(&self) -> (s: EncodingStrategy)
        ensures
            s == (EncodingStrategy::ColorEncoding { color_space: ColorSpace::RGB }),
    {
        EncodingStrategy::ColorEncoding { color_space: ColorSpace::RGB }
    }
}

} // verus!
