//! A verified data plane for content-addressed file storage: fingerprints,
//! blocks and Merkle manifests, authenticated encryption, erasure coding,
//! image-frame codecs, backend routing, the index, and the upload and
//! download transactions that compose them.

pub mod bits;
pub mod block;
pub mod clock;
pub mod color;
pub mod compression;
pub mod crypto;
pub mod db;
pub mod discord;
pub mod encoding;
pub mod erasure;
pub mod error;
pub mod file;
pub mod frame;
pub mod hash;
pub mod local;
pub mod orchestrator;
pub mod pixel;
pub mod qr;
pub mod storage;

pub use error::Error;
