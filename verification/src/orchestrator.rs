//! The upload and download transactions.

use vstd::prelude::*;
use crate::bits::{chunk_at, chunk_count, copy_bytes, same_bytes};
use crate::block::{Block, BlockMetadata};
use crate::clock::unix_now;
use crate::crypto::{
    aes_gcm_open, aes_gcm_seal, random_bytes, AesNonce, CryptoEngine, EncryptedData,
};
use crate::db::{
    bytes_views, chunks_of, BlockRecord, BlockRecordView, ChunkRecord, ChunkRecordView, Database,
    DatabaseView, FileRecord, FileRecordView,
};
use crate::encoding::{EncodedData, Encoder};
use crate::error::Error;
use crate::file::{fingerprints, merkle_root, File};
use crate::hash;
use crate::hash::sha256;
use crate::pixel::PixelEncoder;
use crate::qr::QREncoder;
use crate::storage::{
    optional_text, Location, LocationView, StorageBackend, StorageManager, StorageMetadata,
    StorageMetadataView,
};

verus! {

/// The lowercase equivalent of a text.
pub uninterp spec fn lowercased(text: Seq<char>) -> Seq<char>;

/// Lowercases with `str::to_lowercase`. The result depends on the text
/// alone.
#[verifier::external_body]
fn lowercase(text: &str) -> (lower: String)
    ensures
        lower@ == lowercased(text@),
{
    text.to_lowercase()
}

/// The codecs a file can be stored through.
#[derive(Clone, Copy, Debug, PartialEq, Eq, Structural)]
pub enum EncodingType {
    /// No codec: the bytes are stored as they are.
    Plain,
    /// The pixel-grid codec.
    Pixel,
    /// The colour codec.
    Color,
    /// The barcode-grid codec.
    QR,
}

impl EncodingType {
    /// The codec that a lowercase name stands for; any name but those of
    /// the three codecs stands for none.
    pub open spec fn of_name(name: Seq<char>) -> EncodingType {
        if name == "pixel"@ {
            EncodingType::Pixel
        } else if name == "color"@ {
            EncodingType::Color
        } else if name == "qr"@ {
            EncodingType::QR
        } else {
            EncodingType::Plain
        }
    }

    /// The name of a codec.
    pub open spec fn spec_as_str(self) -> Seq<char> {
        match self {
            EncodingType::Plain => "none"@,
            EncodingType::Pixel => "pixel"@,
            EncodingType::Color => "color"@,
            EncodingType::QR => "qr"@,
        }
    }

    /// The codec that a name of any case stands for.
    pub fn from_str(s: &str) -> (encoding: EncodingType)
        ensures
            encoding == Self::of_name(lowercased(s@)),
    {
        Self::from_lowercase(lowercase(s))
    }

    /// The codec that a lowercase name stands for.
    pub fn from_lowercase(name: String) -> (encoding: EncodingType)
        ensures
            encoding == Self::of_name(name@),
    {
        if name == "pixel".to_owned() {
            EncodingType::Pixel
        } else if name == "color".to_owned() {
            EncodingType::Color
        } else if name == "qr".to_owned() {
            EncodingType::QR
        } else {
            EncodingType::Plain
        }
    }

    /// The codec that the name in a block record stands for: the codec of
    /// that very name; failing that, the codec that the name stands for
    /// whatever its case.
    pub open spec fn of_record_name(name: Seq<char>) -> EncodingType {
        if name == "none"@ {
            EncodingType::Plain
        } else if name == "pixel"@ {
            EncodingType::Pixel
        } else if name == "color"@ {
            EncodingType::Color
        } else if name == "qr"@ {
            EncodingType::QR
        } else {
            Self::of_name(lowercased(name))
        }
    }

    /// The codec that the name in a block record stands for.
    pub fn from_record_name(name: &String) -> (encoding: EncodingType)
        ensures
            encoding == Self::of_record_name(name@),
    {
        if *name == "none".to_owned() {
            EncodingType::Plain
        } else if *name == "pixel".to_owned() {
            EncodingType::Pixel
        } else if *name == "color".to_owned() {
            EncodingType::Color
        } else if *name == "qr".to_owned() {
            EncodingType::QR
        } else {
            Self::from_str(name.as_str())
        }
    }

    /// Returns the name of the codec.
    pub fn as_str(&self) -> (name: &'static str)
        ensures
            name@ == self.spec_as_str(),
    {
        match self {
            EncodingType::Plain => "none",
            EncodingType::Pixel => "pixel",
            EncodingType::Color => "color",
            EncodingType::QR => "qr",
        }
    }
}

/// What to do to a file on its way into storage.
#[derive(Clone, Debug)]
pub struct UploadOptions {
    /// The codec to store the file through.
    pub encoding: EncodingType,
    /// Whether to encrypt the file.
    pub encrypt: bool,
    /// The password to encrypt under; needed if `encrypt` is set.
    pub password: Option<String>,
    /// Whether erasure coding is requested.
    pub use_erasure: bool,
    /// Data shards for erasure coding.
    pub data_shards: usize,
    /// Parity shards for erasure coding.
    pub parity_shards: usize,
}

impl Default for UploadOptions {
    /// No codec, no encryption, no erasure coding; four data shards and two
    /// parity shards should erasure coding be switched on.
    fn default() -> (options: UploadOptions)
        ensures
            options.encoding == EncodingType::Plain,
            !options.encrypt,
            options.password is None,
            !options.use_erasure,
            options.data_shards == 4,
            options.parity_shards == 2,
    {
        UploadOptions {
            encoding: EncodingType::Plain,
            encrypt: false,
            password: None,
            use_erasure: false,
            data_shards: 4,
            parity_shards: 2,
        }
    }
}

/// What an upload did.
#[derive(Clone, Copy, Debug)]
pub struct UploadResult {
    /// Size of the file as given, in bytes.
    pub original_size: usize,
    /// Number of blocks stored.
    pub total_blocks: usize,
    /// Whether the file was encrypted.
    pub encrypted: bool,
    /// The codec the file was stored through, if any.
    pub encoding: Option<EncodingType>,
}

/// A plaintext sealed under the key that a password and a salt derive, in
/// wire form: the nonce, then the ciphertext.
pub open spec fn sealed(data: Seq<u8>, password: Seq<char>, salt: Seq<u8>, nonce: Seq<u8>) -> Result<
    Seq<u8>,
    Error,
> {
    match CryptoEngine::derived_key(password, salt) {
        None => Err(Error::CryptoKdf),
        Some(key) => match aes_gcm_seal(key, nonce, data) {
            None => Err(Error::Other),
            Some(ciphertext) => Ok(nonce + ciphertext),
        },
    }
}

/// A buffer run through a codec with its default parameters.
pub open spec fn encoded_as(buffer: Seq<u8>, encoding: EncodingType) -> Result<Seq<u8>, Error> {
    match encoding {
        EncodingType::Plain => Ok(buffer),
        EncodingType::Pixel => PixelEncoder::spec_default().spec_encode(buffer),
        EncodingType::Color => Err(Error::CodecUnimplemented),
        EncodingType::QR => QREncoder::spec_default().spec_encode(buffer),
    }
}

/// The bytes that go into blocks for a file: sealed if a password is
/// given, then run through the codec.
pub open spec fn staged(
    data: Seq<u8>,
    encoding: EncodingType,
    password: Option<Seq<char>>,
    salt: Seq<u8>,
    nonce: Seq<u8>,
) -> Result<Seq<u8>, Error> {
    match password {
        None => encoded_as(data, encoding),
        Some(password) => match sealed(data, password, salt, nonce) {
            Err(e) => Err(e),
            Ok(wire) => encoded_as(wire, encoding),
        },
    }
}

/// A buffer run backwards through a codec with its default parameters.
pub open spec fn decoded_as(buffer: Seq<u8>, encoding: EncodingType) -> Result<Seq<u8>, Error> {
    match encoding {
        EncodingType::Plain => Ok(buffer),
        EncodingType::Pixel => PixelEncoder::spec_default().spec_decode(buffer),
        EncodingType::Color => Err(Error::CodecUnimplemented),
        EncodingType::QR => Err(Error::CodecUnimplemented),
    }
}

/// A wire form opened under the key that a password and a salt derive: the
/// first twelve bytes are the nonce, the rest is the ciphertext.
pub open spec fn opened(wire: Seq<u8>, password: Seq<char>, salt: Seq<u8>) -> Result<Seq<u8>, Error> {
    if wire.len() < 12 {
        Err(Error::CryptoIntegrity)
    } else {
        match CryptoEngine::derived_key(password, salt) {
            None => Err(Error::CryptoKdf),
            Some(key) => match aes_gcm_open(key, wire.take(12), wire.skip(12)) {
                Some(plaintext) => Ok(plaintext),
                None => Err(Error::CryptoIntegrity),
            },
        }
    }
}

/// The file that the bytes out of blocks stand for: run backwards through
/// the codec, then opened if a password is given.
pub open spec fn finished(
    buffer: Seq<u8>,
    encoding: EncodingType,
    password: Option<Seq<char>>,
    salt: Seq<u8>,
) -> Result<Seq<u8>, Error> {
    match decoded_as(buffer, encoding) {
        Err(e) => Err(e),
        Ok(plain) => match password {
            None => Ok(plain),
            Some(password) => opened(plain, password, salt),
        },
    }
}

/// Runs a buffer through a codec with its default parameters.
pub fn encode_as(buffer: Vec<u8>, encoding: EncodingType) -> (r: Result<Vec<u8>, Error>)
    ensures
        match r {
            Ok(out) => encoded_as(buffer@, encoding) == Ok::<Seq<u8>, Error>(out@),
            Err(e) => encoded_as(buffer@, encoding) == Err::<Seq<u8>, Error>(e),
        },
{
    match encoding {
        EncodingType::Plain => Ok(buffer),
        EncodingType::Pixel => match PixelEncoder::new().encode(buffer.as_slice()) {
            Ok(encoded) => Ok(encoded.data),
            Err(e) => Err(e),
        },
        EncodingType::Color => Err(Error::CodecUnimplemented),
        EncodingType::QR => match QREncoder::new().encode(buffer.as_slice()) {
            Ok(encoded) => Ok(encoded.data),
            Err(e) => Err(e),
        },
    }
}

/// Stages a file for storage under a given salt and nonce: seals it if a
/// password is given, then runs it through the codec.
pub fn stage_upload(
    data: Vec<u8>,
    encoding: EncodingType,
    password: &Option<String>,
    salt: &[u8],
    nonce: AesNonce,
) -> (r: Result<Vec<u8>, Error>)
    ensures
        match r {
            Ok(out) => staged(data@, encoding, optional_text(*password), salt@, nonce@) == Ok::<
                Seq<u8>,
                Error,
            >(out@),
            Err(e) => staged(data@, encoding, optional_text(*password), salt@, nonce@) == Err::<
                Seq<u8>,
                Error,
            >(e),
        },
        r is Ok && encoding == EncodingType::Plain ==> r.unwrap()@.len() == data@.len() + (
        if *password is Some {
            28int
        } else {
            0int
        }),
{
    match password {
        None => encode_as(data, encoding),
        Some(password) => {
            let key = match CryptoEngine::derive_key_from_password(password.as_str(), salt) {
                Ok(key) => key,
                Err(e) => {
                    return Err(e);
                },
            };
            let engine = CryptoEngine::new(key);
            let encrypted = match engine.encrypt_with_nonce(nonce, data.as_slice()) {
                Ok(encrypted) => encrypted,
                Err(e) => {
                    return Err(e);
                },
            };
            encode_as(encrypted.to_bytes(), encoding)
        },
    }
}

/// Recovers a file from the bytes out of its blocks: runs them backwards
/// through the codec, then opens them if a password is given.
///
/// The result is exactly what `finished` describes. In particular, for the
/// pixel codec and for no codec, what was staged from a file under the same
/// password and salt gives that file back.
pub fn finish_download(
    buffer: Vec<u8>,
    encoding: EncodingType,
    password: &Option<String>,
    salt: &[u8],
) -> (r: Result<Vec<u8>, Error>)
    ensures
        match r {
            Ok(out) => finished(buffer@, encoding, optional_text(*password), salt@) == Ok::<
                Seq<u8>,
                Error,
            >(out@),
            Err(e) => finished(buffer@, encoding, optional_text(*password), salt@) == Err::<
                Seq<u8>,
                Error,
            >(e),
        },
        forall|data: Seq<u8>, nonce: Seq<u8>|
            #![trigger staged(data, encoding, optional_text(*password), salt@, nonce)]
            encoding != EncodingType::QR && nonce.len() == 12 && staged(
                data,
                encoding,
                optional_text(*password),
                salt@,
                nonce,
            ) == Ok::<Seq<u8>, Error>(buffer@) ==> r is Ok && r.unwrap()@ == data,
{
    let ghost given = buffer@;
    let plain = match encoding {
        EncodingType::Plain => buffer,
        EncodingType::Pixel => {
            let encoder = PixelEncoder::new();
            match encoder.decode(&EncodedData::from_bytes(buffer)) {
                Ok(plain) => plain,
                Err(e) => {
                    return Err(e);
                },
            }
        },
        EncodingType::Color => {
            return Err(Error::CodecUnimplemented);
        },
        EncodingType::QR => {
            return Err(Error::CodecUnimplemented);
        },
    };
    assert(forall|inner: Seq<u8>|
        encoding != EncodingType::QR && #[trigger] encoded_as(inner, encoding) == Ok::<
            Seq<u8>,
            Error,
        >(given) ==> plain@ == inner);
    match password {
        None => Ok(plain),
        Some(password) => {
            let encrypted = match EncryptedData::from_bytes(plain.as_slice()) {
                Ok(encrypted) => encrypted,
                Err(e) => {
                    return Err(e);
                },
            };
            assert(plain@.take(12) =~= encrypted.nonce@);
            assert(plain@.skip(12) =~= encrypted.ciphertext@);
            let key = match CryptoEngine::derive_key_from_password(password.as_str(), salt) {
                Ok(key) => key,
                Err(e) => {
                    return Err(e);
                },
            };
            let engine = CryptoEngine::new(key);
            let r = engine.decrypt(&encrypted);
            proof {
                assert forall|data: Seq<u8>, nonce: Seq<u8>|
                    encoding != EncodingType::QR && nonce.len() == 12 && #[trigger] staged(
                        data,
                        encoding,
                        Some(password@),
                        salt@,
                        nonce,
                    ) == Ok::<Seq<u8>, Error>(given) implies r is Ok && r.unwrap()@ == data by {
                    let wire = sealed(data, password@, salt@, nonce).unwrap();
                    assert(encoded_as(wire, encoding) == Ok::<Seq<u8>, Error>(given));
                    assert(plain@ == wire);
                    let ciphertext = aes_gcm_seal(key@, nonce, data).unwrap();
                    assert(wire == nonce + ciphertext);
                    assert(wire.take(12) =~= nonce);
                    assert(wire.skip(12) =~= ciphertext);
                }
            }
            r
        },
    }
}

/// The fingerprints of the blocks that a buffer is cut into.
pub open spec fn block_fingerprints(buffer: Seq<u8>, block_size: int) -> Seq<Seq<u8>> {
    Seq::new(
        chunk_count(buffer.len() as int, block_size) as nat,
        |i: int| sha256(chunk_at(buffer, block_size, i)),
    )
}

/// Byte strings one after another.
pub open spec fn flat(parts: Seq<Seq<u8>>) -> Seq<u8>
    decreases parts.len(),
{
    if parts.len() == 0 {
        Seq::<u8>::empty()
    } else {
        flat(parts.drop_last()) + parts.last()
    }
}

/// The blocks that a buffer is cut into.
pub open spec fn blocks_of(buffer: Seq<u8>, block_size: int) -> Seq<Seq<u8>> {
    Seq::new(
        chunk_count(buffer.len() as int, block_size) as nat,
        |i: int| chunk_at(buffer, block_size, i),
    )
}

/// The first blocks of a buffer, one after another, are the bytes of the
/// buffer up to where the last of them ends.
proof fn lemma_blocks_prefix(buffer: Seq<u8>, block_size: int, k: int)
    requires
        block_size >= 1,
        0 <= k <= chunk_count(buffer.len() as int, block_size),
    ensures
        k * block_size >= 0,
        flat(blocks_of(buffer, block_size).take(k)) == buffer.subrange(
            0,
            if k * block_size <= buffer.len() {
                k * block_size
            } else {
                buffer.len() as int
            },
        ),
    decreases k,
{
    let len = buffer.len() as int;
    let blocks = blocks_of(buffer, block_size);
    vstd::arithmetic::div_mod::lemma_fundamental_div_mod(len, block_size);
    assert(k * block_size >= 0) by (nonlinear_arith)
        requires
            k >= 0,
            block_size >= 1,
    ;
    if k == 0 {
        assert(0 * block_size == 0);
        assert(blocks.take(0) =~= Seq::<Seq<u8>>::empty());
        assert(flat(blocks.take(0)) =~= buffer.subrange(0, 0));
    } else {
        lemma_blocks_prefix(buffer, block_size, k - 1);
        assert(blocks.take(k).drop_last() =~= blocks.take(k - 1));
        assert(blocks.take(k).last() == chunk_at(buffer, block_size, k - 1));
        assert((k - 1) * block_size < len && (k - 1) * block_size + block_size == k * block_size)
            by (nonlinear_arith)
            requires
                1 <= k <= chunk_count(len, block_size),
                block_size >= 1,
                len == block_size * (len / block_size) + len % block_size,
                0 <= len % block_size < block_size,
                chunk_count(len, block_size) <= len / block_size + 1,
                len % block_size == 0 ==> chunk_count(len, block_size) == len / block_size,
        ;
        let end = if k * block_size <= len {
            k * block_size
        } else {
            len
        };
        assert(flat(blocks.take(k)) =~= buffer.subrange(0, (k - 1) * block_size) + buffer.subrange(
            (k - 1) * block_size,
            end,
        ));
        assert(flat(blocks.take(k)) =~= buffer.subrange(0, end));
    }
}

/// The blocks that a buffer is cut into, one after another, are the
/// buffer.
pub proof fn lemma_blocks_join(buffer: Seq<u8>, block_size: int)
    requires
        block_size >= 1,
    ensures
        flat(blocks_of(buffer, block_size)) == buffer,
{
    let len = buffer.len() as int;
    let count = chunk_count(len, block_size);
    vstd::arithmetic::div_mod::lemma_fundamental_div_mod(len, block_size);
    assert(count >= 0 && count * block_size >= len) by (nonlinear_arith)
        requires
            block_size >= 1,
            len >= 0,
            len == block_size * (len / block_size) + len % block_size,
            0 <= len % block_size < block_size,
            count == if len % block_size == 0 {
                len / block_size
            } else {
                len / block_size + 1
            },
    ;
    lemma_blocks_prefix(buffer, block_size, count);
    assert(blocks_of(buffer, block_size).take(count) =~= blocks_of(buffer, block_size));
    assert(buffer.subrange(0, len) =~= buffer);
}

/// Whether the index shows a file as an upload leaves it: the last file on
/// record is under the path, has the size and three identical timestamps;
/// its root is the Merkle root of its manifest; and every block of the
/// manifest is on record with at least one stored copy.
pub open spec fn stored(index: DatabaseView, path: Seq<char>, size: nat, blocks: nat) -> bool {
    &&& index.files.len() >= 1
    &&& index.manifests.len() == index.files.len()
    &&& index.files.last().path == path
    &&& index.files.last().size == size
    &&& index.files.last().created_at == index.files.last().modified_at
    &&& index.files.last().modified_at == index.files.last().accessed_at
    &&& index.manifests.last().len() == blocks
    &&& index.files.last().root_hash == merkle_root(index.manifests.last())
    &&& forall|i: int|
        0 <= i < index.manifests.last().len() ==> index.has_block(
            #[trigger] index.manifests.last()[i],
        ) && chunks_of(index.chunks, index.manifests.last()[i]).len() >= 1
}

/// Whether a manifest is that of a file staged under some nonce: the
/// fingerprints of the blocks that the staged bytes are cut into.
pub open spec fn manifest_of(
    manifest: Seq<Seq<u8>>,
    block_size: int,
    data: Seq<u8>,
    encoding: EncodingType,
    password: Option<Seq<char>>,
    salt: Seq<u8>,
) -> bool {
    exists|nonce: Seq<u8>|
        nonce.len() == 12 && (#[trigger] staged(data, encoding, password, salt, nonce)) is Ok
            && manifest == block_fingerprints(
            staged(data, encoding, password, salt, nonce).unwrap(),
            block_size,
        )
}

/// Whether a codec is the one that a manifest is read through: none for an
/// empty manifest, otherwise the codec that the record of the first block
/// names.
pub open spec fn codec_of(index: DatabaseView, manifest: Seq<Seq<u8>>, encoding: EncodingType) -> bool {
    if manifest.len() == 0 {
        encoding == EncodingType::Plain
    } else {
        exists|b: int|
            0 <= b < index.blocks.len() && (#[trigger] index.blocks[b]).hash == manifest[0]
                && encoding == EncodingType::of_record_name(index.blocks[b].encoding_strategy)
    }
}

/// Whether bytes are what a download returns for a file and its
/// manifest: the bytes of blocks with the fingerprints of the manifest,
/// one after another, run backwards through the manifest's codec and
/// opened if a password is given.
pub open spec fn recovered(
    out: Seq<u8>,
    index: DatabaseView,
    manifest: Seq<Seq<u8>>,
    password: Option<Seq<char>>,
    salt: Seq<u8>,
) -> bool {
    exists|parts: Seq<Seq<u8>>, encoding: EncodingType|
        parts.len() == manifest.len() && (forall|j: int|
            0 <= j < parts.len() ==> sha256(#[trigger] parts[j]) == manifest[j]) && codec_of(
            index,
            manifest,
            encoding,
        ) && (#[trigger] finished(flat(parts), encoding, password, salt)) == Ok::<Seq<u8>, Error>(
            out,
        )
}

/// Whether a list of records continues another: the records of the other,
/// then possibly more.
pub open spec fn continues<T>(before: Seq<T>, after: Seq<T>) -> bool {
    before.len() <= after.len() && after.take(before.len() as int) == before
}

/// What continues a continuation continues the first list.
proof fn lemma_continues<T>(a: Seq<T>, b: Seq<T>, c: Seq<T>)
    requires
        continues(a, b),
        continues(b, c),
    ensures
        continues(a, c),
{
    assert forall|t: int| 0 <= t < a.len() implies c[t] == a[t] by {
        assert(c.take(b.len() as int)[t] == c[t]);
        assert(b.take(a.len() as int)[t] == b[t]);
    }
    assert(c.take(a.len() as int) =~= a);
}

/// Whether the copies on record after an upload are those on record
/// before, then one copy of every block of the manifest, in the order of
/// the manifest, none of them of a parity shard.
pub open spec fn trail(
    before: Seq<ChunkRecordView>,
    after: Seq<ChunkRecordView>,
    manifest: Seq<Seq<u8>>,
) -> bool {
    &&& after.len() == before.len() + manifest.len()
    &&& continues(before, after)
    &&& forall|i: int|
        0 <= i < manifest.len() ==> (#[trigger] after[before.len() + i]).block_hash == manifest[i]
            && !after[before.len() + i].is_parity
}

/// One more copy never takes copies of a block away, and adds one to the
/// block it is a copy of.
proof fn lemma_chunks_of_push(chunks: Seq<ChunkRecordView>, chunk: ChunkRecordView, hash: Seq<u8>)
    ensures
        chunks_of(chunks.push(chunk), hash).len() >= chunks_of(chunks, hash).len(),
        chunk.block_hash == hash ==> chunks_of(chunks.push(chunk), hash).len() >= 1,
{
    assert(chunks.push(chunk).drop_last() =~= chunks);
}

/// The password that an upload seals under: the one given, if encryption
/// is asked for.
pub open spec fn secret(options: UploadOptions) -> Option<Seq<char>> {
    if options.encrypt {
        optional_text(options.password)
    } else {
        None
    }
}

/// Why an upload is refused before anything is drawn or stored: `Index`
/// for a file whose size the index cannot record, `Config` for encryption
/// without a password.
pub open spec fn refused(size: nat, options: UploadOptions) -> Option<Error> {
    if size > i64::MAX {
        Some(Error::Index)
    } else if options.encrypt && options.password is None {
        Some(Error::Config)
    } else {
        None
    }
}

/// Whether a block is the one that an upload hands to a backend for the
/// given bytes: intact, without locations, named after the codec unless
/// there is none, marked as encrypted if it is, and stamped with the time
/// of the upload.
pub open spec fn handed(
    block: Block,
    bytes: Seq<u8>,
    encoding: EncodingType,
    encrypted: bool,
    now: i64,
) -> bool {
    &&& block.wf()
    &&& block.data@ == bytes
    &&& block.locations@.len() == 0
    &&& block.metadata.encoding@ == (if encoding == EncodingType::Plain {
        "raw"@
    } else {
        encoding.spec_as_str()
    })
    &&& !block.metadata.is_parity
    &&& block.metadata.compression is None
    &&& optional_text(block.metadata.encryption) == (if encrypted {
        Some("aes-256-gcm"@)
    } else {
        None
    })
    &&& block.metadata.created_at == now
}

/// The record of a block of an upload.
pub open spec fn block_record(bytes: Seq<u8>, encoding: EncodingType, now: i64) -> BlockRecordView {
    BlockRecordView {
        hash: sha256(bytes),
        size: bytes.len() as i64,
        encoding_strategy: encoding.spec_as_str(),
        created_at: now,
    }
}

/// The record of the copy of a block at the location that a backend
/// returned.
pub open spec fn chunk_record(
    fingerprint: Seq<u8>,
    location: LocationView,
    id: int,
    now: i64,
) -> ChunkRecordView {
    ChunkRecordView {
        id: id as i64,
        block_hash: fingerprint,
        platform: location.platform,
        location: location.identifier,
        is_parity: false,
        uploaded_at: now,
    }
}

/// The index with a block put on record, unless one is on record under
/// its fingerprint.
pub open spec fn with_block(index: DatabaseView, record: BlockRecordView) -> DatabaseView {
    if index.has_block(record.hash) {
        index
    } else {
        DatabaseView { blocks: index.blocks.push(record), ..index }
    }
}

/// The index with one more chunk on record.
pub open spec fn with_chunk(index: DatabaseView, chunk: ChunkRecordView) -> DatabaseView {
    DatabaseView { chunks: index.chunks.push(chunk), ..index }
}

/// The index after the first `k` blocks of a buffer are stored: block
/// after block, the block is put on record, then its copy at the location
/// that the backend returned for it, under the next chunk identifier.
pub open spec fn after_blocks(
    index: DatabaseView,
    first_id: int,
    buffer: Seq<u8>,
    block_size: int,
    encoding: EncodingType,
    now: i64,
    locations: Seq<LocationView>,
    k: nat,
) -> DatabaseView
    decreases k,
{
    if k == 0 {
        index
    } else {
        let bytes = chunk_at(buffer, block_size, k - 1);
        with_chunk(
            with_block(
                after_blocks(
                    index,
                    first_id,
                    buffer,
                    block_size,
                    encoding,
                    now,
                    locations,
                    (k - 1) as nat,
                ),
                block_record(bytes, encoding, now),
            ),
            chunk_record(sha256(bytes), locations[k - 1], first_id + k - 1, now),
        )
    }
}

/// The index after the first blocks depends on the first locations only.
proof fn lemma_after_blocks(
    index: DatabaseView,
    first_id: int,
    buffer: Seq<u8>,
    block_size: int,
    encoding: EncodingType,
    now: i64,
    a: Seq<LocationView>,
    b: Seq<LocationView>,
    k: nat,
)
    requires
        forall|i: int| 0 <= i < k ==> a[i] == b[i],
    ensures
        after_blocks(index, first_id, buffer, block_size, encoding, now, a, k) == after_blocks(
            index,
            first_id,
            buffer,
            block_size,
            encoding,
            now,
            b,
            k,
        ),
    decreases k,
{
    if k > 0 {
        lemma_after_blocks(index, first_id, buffer, block_size, encoding, now, a, b, (k - 1) as nat);
    }
}

/// What an upload draws, hands out and is answered.
pub struct UploadRun {
    /// The time of the upload.
    pub now: i64,
    /// The salt drawn: sixteen bytes if the file is encrypted, else none.
    pub salt: Seq<u8>,
    /// The nonce drawn.
    pub nonce: Seq<u8>,
    /// The blocks handed to the first backend, in order.
    pub blocks: Seq<Block>,
    /// What the dispatcher answered for each of them.
    pub answers: Seq<Result<Location, Error>>,
    /// The number of blocks stored: put on record, uploaded, and their copy
    /// put on record.
    pub stored: nat,
}

/// The locations that the backend returned for the blocks stored.
pub open spec fn run_locations(run: UploadRun) -> Seq<LocationView> {
    Seq::new(run.stored, |i: int| run.answers[i].unwrap()@)
}

/// Whether the blocks of a run are the blocks of the buffer, in order, each
/// handed to the first backend as the upload hands it, and every answer but
/// possibly the last a success.
pub open spec fn block_calls<B: StorageBackend>(
    dispatcher: StorageManager<B>,
    buffer: Seq<u8>,
    block_size: int,
    encoding: EncodingType,
    encrypted: bool,
    run: UploadRun,
) -> bool {
    &&& run.blocks.len() == run.answers.len()
    &&& run.stored <= run.answers.len() <= run.stored + 1
    &&& run.answers.len() <= chunk_count(buffer.len() as int, block_size)
    &&& forall|i: int|
        0 <= i < run.answers.len() ==> handed(
            #[trigger] run.blocks[i],
            chunk_at(buffer, block_size, i),
            encoding,
            encrypted,
            run.now,
        ) && dispatcher.uploads(0, &run.blocks[i], run.answers[i])
    &&& forall|i: int| 0 <= i < run.stored ==> (#[trigger] run.answers[i]) is Ok
}

/// The record of an uploaded file.
pub open spec fn file_record(
    id: int,
    path: Seq<char>,
    size: nat,
    buffer: Seq<u8>,
    block_size: int,
    run: UploadRun,
) -> FileRecordView {
    FileRecordView {
        id: id as i64,
        path,
        root_hash: merkle_root(block_fingerprints(buffer, block_size)),
        size: size as i64,
        created_at: run.now,
        modified_at: run.now,
        accessed_at: run.now,
        salt: run.salt,
    }
}

/// What an upload answers once every block is stored: with no file
/// identifier left it fails with `Index` and leaves the files as they are;
/// otherwise it succeeds, and the files on record are those on record
/// before without the one under the path, then the new one.
pub open spec fn filed(
    before: Database,
    after: Database,
    base: DatabaseView,
    path: Seq<char>,
    size: nat,
    options: UploadOptions,
    buffer: Seq<u8>,
    block_size: int,
    r: Result<UploadResult, Error>,
    run: UploadRun,
) -> bool {
    if before.file_ids_exhausted() {
        &&& r == Err::<UploadResult, Error>(Error::Index)
        &&& after@ == base
        &&& after.next_file_id() == before.next_file_id()
    } else {
        &&& r == Ok::<UploadResult, Error>(
            UploadResult {
                original_size: size as usize,
                total_blocks: chunk_count(buffer.len() as int, block_size) as usize,
                encrypted: options.encrypt,
                encoding: if options.encoding == EncodingType::Plain {
                    None
                } else {
                    Some(options.encoding)
                },
            },
        )
        &&& after.next_file_id() == before.next_file_id() + 1
        &&& after@ == (DatabaseView {
            files: base.without_path(path).files.push(
                file_record(before.next_file_id(), path, size, buffer, block_size, run),
            ),
            manifests: base.without_path(path).manifests.push(
                block_fingerprints(buffer, block_size),
            ),
            ..base
        })
    }
}

/// Whether an index and an answer are what an upload leaves after a run.
///
/// Where staging fails, the upload fails with that failure and the index is
/// as before. Otherwise block after block is stored until one fails: the
/// upload then fails with the backend's failure, or with `Index` where no
/// chunk identifier is left, the failing block is on record and its copy is
/// not. Where no block fails, the file is put on record.
pub open spec fn upload_ran<B: StorageBackend>(
    before: Database,
    after: Database,
    dispatcher: StorageManager<B>,
    block_size: int,
    path: Seq<char>,
    data: Seq<u8>,
    options: UploadOptions,
    r: Result<UploadResult, Error>,
    run: UploadRun,
) -> bool {
    &&& run.nonce.len() == 12
    &&& run.salt.len() == (if options.encrypt {
        16int
    } else {
        0int
    })
    &&& match staged(data, options.encoding, secret(options), run.salt, run.nonce) {
        Err(e) => {
            &&& r == Err::<UploadResult, Error>(e)
            &&& after@ == before@
            &&& after.next_file_id() == before.next_file_id()
            &&& after.next_chunk_id() == before.next_chunk_id()
        },
        Ok(buffer) => {
            let base = after_blocks(
                before@,
                before.next_chunk_id(),
                buffer,
                block_size,
                options.encoding,
                run.now,
                run_locations(run),
                run.stored,
            );
            &&& block_calls(dispatcher, buffer, block_size, options.encoding, options.encrypt, run)
            &&& after.next_chunk_id() == before.next_chunk_id() + run.stored
            &&& if run.answers.len() > run.stored {
                &&& after@ == with_block(
                    base,
                    block_record(
                        chunk_at(buffer, block_size, run.stored as int),
                        options.encoding,
                        run.now,
                    ),
                )
                &&& after.next_file_id() == before.next_file_id()
                &&& match run.answers[run.stored as int] {
                    Err(e) => r == Err::<UploadResult, Error>(e),
                    Ok(_) => r == Err::<UploadResult, Error>(Error::Index)
                        && before.next_chunk_id() + run.stored == i64::MAX,
                }
            } else {
                &&& run.stored == chunk_count(buffer.len() as int, block_size)
                &&& filed(
                    before,
                    after,
                    base,
                    path,
                    data.len(),
                    options,
                    buffer,
                    block_size,
                    r,
                    run,
                )
            }
        },
    }
}

/// The record of a block that an upload stores.
pub fn block_record_for(block: &Block, encoding: EncodingType, now: i64) -> (record: BlockRecord)
    requires
        block.wf(),
        block.data@.len() <= i64::MAX,
    ensures
        record@ == block_record(block.data@, encoding, now),
{
    BlockRecord {
        hash: copy_bytes(block.hash.0.as_slice()),
        size: block.data.len() as i64,
        encoding_strategy: encoding.as_str().to_owned(),
        created_at: now,
    }
}

/// The record of the copy of a block at the location that a backend
/// returned; the index assigns its identifier.
pub fn chunk_record_for(fingerprint: &hash::Hash, location: &Location, now: i64) -> (chunk:
    ChunkRecord)
    ensures
        chunk@ == chunk_record(fingerprint@, location@, 0, now),
{
    ChunkRecord {
        id: 0,
        block_hash: copy_bytes(fingerprint.0.as_slice()),
        platform: location.platform.clone(),
        location: location.identifier.clone(),
        is_parity: false,
        uploaded_at: now,
    }
}

/// The location that a download asks for the copy on record in a chunk.
pub open spec fn location_of_copy(copy: ChunkRecordView) -> LocationView {
    LocationView {
        platform: copy.platform,
        identifier: copy.location,
        metadata: StorageMetadataView {
            uploaded_at: copy.uploaded_at,
            url: None,
            stored_size: 0,
            extra: Seq::empty(),
        },
    }
}

/// The location that a download asks for the copy on record in a chunk.
pub fn location_for_copy(copy: &ChunkRecord) -> (location: Location)
    ensures
        location@ == location_of_copy(copy@),
{
    Location {
        platform: copy.platform.clone(),
        identifier: copy.location.clone(),
        metadata: StorageMetadata::at(copy.uploaded_at),
    }
}

/// One try to fetch a copy: the location asked for and the dispatcher's
/// answer.
pub struct Try {
    /// The location asked for.
    pub location: Location,
    /// What the dispatcher answered.
    pub answer: Result<Vec<u8>, Error>,
}

/// Whether an answer holds the bytes of the block with the fingerprint.
pub open spec fn good(answer: Result<Vec<u8>, Error>, fingerprint: Seq<u8>) -> bool {
    match answer {
        Ok(bytes) => sha256(bytes@) == fingerprint,
        Err(_) => false,
    }
}

/// Whether tries are those of a download for one block: the copies on
/// record are asked for in order, each at its location, until one answer is
/// good or no copy is left.
pub open spec fn tried<B: StorageBackend>(
    dispatcher: StorageManager<B>,
    copies: Seq<ChunkRecordView>,
    fingerprint: Seq<u8>,
    tries: Seq<Try>,
) -> bool {
    &&& tries.len() <= copies.len()
    &&& forall|c: int|
        0 <= c < tries.len() ==> (#[trigger] tries[c]).location@ == location_of_copy(copies[c])
            && dispatcher.downloads(&tries[c].location, tries[c].answer)
    &&& forall|c: int| 0 <= c < tries.len() - 1 ==> !good((#[trigger] tries[c]).answer, fingerprint)
    &&& tries.len() < copies.len() ==> tries.len() > 0 && good(tries.last().answer, fingerprint)
}

/// What the tries for one block give: the bytes of the last answer if it is
/// good; otherwise the failure of the last answer, or `BlockNotFound` where
/// there was no try or the last answer held other bytes.
pub open spec fn fetched(tries: Seq<Try>, fingerprint: Seq<u8>) -> Result<Seq<u8>, Error> {
    if tries.len() == 0 {
        Err(Error::BlockNotFound)
    } else {
        match tries.last().answer {
            Ok(bytes) => if sha256(bytes@) == fingerprint {
                Ok(bytes@)
            } else {
                Err(Error::BlockNotFound)
            },
            Err(e) => Err(e),
        }
    }
}

/// Whether an executable answer is the given one.
pub open spec fn answers_with(r: Result<Vec<u8>, Error>, expected: Result<Seq<u8>, Error>) -> bool {
    match r {
        Ok(bytes) => expected == Ok::<Seq<u8>, Error>(bytes@),
        Err(e) => expected == Err::<Seq<u8>, Error>(e),
    }
}

/// The codec that a manifest is read through: none for an empty manifest,
/// otherwise the codec that the record of the first block names.
pub open spec fn read_codec(index: DatabaseView, manifest: Seq<Seq<u8>>) -> EncodingType {
    if manifest.len() == 0 {
        EncodingType::Plain
    } else {
        EncodingType::of_record_name(
            index.blocks[index.block_index(manifest[0])].encoding_strategy,
        )
    }
}

/// What a download answers once the bytes of every block are fetched:
/// `BlockNotFound` where the first block of the manifest is not on record;
/// otherwise the bytes, one block after another, run backwards through the
/// manifest's codec and opened if a password is given. In particular, for
/// the pixel codec and for no codec, bytes that were staged from a file
/// under the same password and salt give that file back.
pub open spec fn answered(
    index: DatabaseView,
    manifest: Seq<Seq<u8>>,
    password: Option<Seq<char>>,
    salt: Seq<u8>,
    parts: Seq<Seq<u8>>,
    r: Result<Vec<u8>, Error>,
) -> bool {
    if manifest.len() > 0 && !index.has_block(manifest[0]) {
        r == Err::<Vec<u8>, Error>(Error::BlockNotFound)
    } else {
        &&& answers_with(
            r,
            finished(flat(parts), read_codec(index, manifest), password, salt),
        )
        &&& forall|data: Seq<u8>, nonce: Seq<u8>|
            #![trigger staged(data, read_codec(index, manifest), password, salt, nonce)]
            read_codec(index, manifest) != EncodingType::QR && nonce.len() == 12 && staged(
                data,
                read_codec(index, manifest),
                password,
                salt,
                nonce,
            ) == Ok::<Seq<u8>, Error>(flat(parts)) ==> r is Ok && r.unwrap()@ == data
    }
}

/// The tries of a download, block after block.
pub struct DownloadRun {
    /// For every block fetched or failed, the tries made for it.
    pub tries: Seq<Seq<Try>>,
}

/// The bytes that the tries of a run give for its blocks.
pub open spec fn run_parts(run: DownloadRun, manifest: Seq<Seq<u8>>) -> Seq<Seq<u8>> {
    Seq::new(run.tries.len(), |j: int| fetched(run.tries[j], manifest[j]).unwrap())
}

/// Whether an answer is what a download gives after a run.
///
/// With no file on record under the path the download fails with
/// `FileNotFound` and tries nothing. Otherwise the blocks of the file's
/// manifest are fetched in order until one fails: the download then fails
/// with that failure. Where none fails, the download answers as `answered`
/// says.
pub open spec fn download_ran<B: StorageBackend>(
    index: DatabaseView,
    dispatcher: StorageManager<B>,
    path: Seq<char>,
    password: Option<Seq<char>>,
    r: Result<Vec<u8>, Error>,
    run: DownloadRun,
) -> bool {
    if !index.has_path(path) {
        r == Err::<Vec<u8>, Error>(Error::FileNotFound) && run.tries.len() == 0
    } else {
        let manifest = index.manifests[index.path_index(path)];
        let salt = index.files[index.path_index(path)].salt;
        let m = run.tries.len() as int;
        &&& m <= manifest.len()
        &&& forall|j: int|
            0 <= j < m ==> tried(
                dispatcher,
                chunks_of(index.chunks, manifest[j]),
                manifest[j],
                #[trigger] run.tries[j],
            )
        &&& forall|j: int| 0 <= j < m - 1 ==> fetched(#[trigger] run.tries[j], manifest[j]) is Ok
        &&& if m > 0 && fetched(run.tries[m - 1], manifest[m - 1]) is Err {
            r == Err::<Vec<u8>, Error>(fetched(run.tries[m - 1], manifest[m - 1])->Err_0)
        } else {
            &&& m == manifest.len()
            &&& answered(index, manifest, password, salt, run_parts(run, manifest), r)
        }
    }
}

/// Coordinates the index and the storage backends.
pub struct Orchestrator<B: StorageBackend> {
    db: Database,
    storage: StorageManager<B>,
    block_size: usize,
}

impl<B: StorageBackend> Orchestrator<B> {
    /// Whether the index and the dispatcher are consistent and the block
    /// size is at least one.
    pub closed spec fn wf(&self) -> bool {
        &&& self.db.wf()
        &&& self.storage.wf()
        &&& 1 <= self.block_size <= 0x7fff_ffff
    }

    /// The content of the index.
    pub closed spec fn index(&self) -> DatabaseView {
        self.db@
    }

    /// The size of the blocks that files are cut into.
    pub closed spec fn block_size(&self) -> int {
        self.block_size as int
    }

    /// The index itself.
    pub closed spec fn ledger(&self) -> Database {
        self.db
    }

    /// The dispatcher.
    pub closed spec fn dispatcher(&self) -> StorageManager<B> {
        self.storage
    }

    /// The content of the index is the content of the index itself, and
    /// index and dispatcher of a consistent orchestrator are consistent.
    pub proof fn lemma_parts(&self)
        ensures
            self.index() == self.ledger()@,
            self.wf() ==> self.ledger().wf() && self.dispatcher().wf(),
    {
    }

    /// An orchestrator over an index and a dispatcher, cutting files into
    /// blocks of one mebibyte.
    pub fn new(db: Database, storage: StorageManager<B>) -> (orchestrator: Self)
        requires
            db.wf(),
            storage.wf(),
        ensures
            orchestrator.wf(),
            orchestrator.index() == db@,
            orchestrator.ledger() == db,
            orchestrator.dispatcher() == storage,
            orchestrator.block_size() == 1048576,
    {
        Orchestrator { db, storage, block_size: 1048576 }
    }

    /// The same orchestrator with another block size, which must be at
    /// least one and below two gibibytes; otherwise the call fails with
    /// `Config`.
    pub fn with_block_size(self, block_size: usize) -> (r: Result<Self, Error>)
        requires
            self.wf(),
        ensures
            match r {
                Ok(orchestrator) => {
                    &&& 1 <= block_size <= 0x7fff_ffff
                    &&& orchestrator.wf()
                    &&& orchestrator.index() == self.index()
                    &&& orchestrator.ledger() == self.ledger()
                    &&& orchestrator.dispatcher() == self.dispatcher()
                    &&& orchestrator.block_size() == block_size
                },
                Err(e) => e == Error::Config && !(1 <= block_size <= 0x7fff_ffff),
            },
    {
        if block_size < 1 || block_size > 0x7fff_ffff {
            return Err(Error::Config);
        }
        Ok(Orchestrator { db: self.db, storage: self.storage, block_size })
    }

    /// The index.
    pub fn database(&self) -> (db: &Database)
        requires
            self.wf(),
        ensures
            db.wf(),
            db@ == self.index(),
            *db == self.ledger(),
    {
        &self.db
    }

    /// Stores one block: puts it on record, uploads it to the first
    /// backend, and puts the copy on record. Also tells the block that was
    /// handed to the backend and what the dispatcher answered.
    fn store_block(&mut self, bytes: &[u8], encoding: EncodingType, encrypted: bool, now: i64) -> (out:
        (Result<hash::Hash, Error>, Ghost<Block>, Ghost<Result<Location, Error>>))
        requires
            old(self).wf(),
            bytes@.len() <= 0x7fff_ffff,
        ensures
            final(self).wf(),
            final(self).block_size() == old(self).block_size(),
            final(self).dispatcher() == old(self).dispatcher(),
            final(self).ledger().next_file_id() == old(self).ledger().next_file_id(),
            final(self).index().files == old(self).index().files,
            final(self).index().manifests == old(self).index().manifests,
            forall|h: Seq<u8>|
                old(self).index().has_block(h) ==> #[trigger] final(self).index().has_block(h),
            forall|h: Seq<u8>|
                #![trigger chunks_of(final(self).index().chunks, h)]
                chunks_of(final(self).index().chunks, h).len() >= chunks_of(
                    old(self).index().chunks,
                    h,
                ).len(),
            continues(old(self).index().blocks, final(self).index().blocks),
            match out.0 {
                Ok(fingerprint) => {
                    &&& fingerprint@ == sha256(bytes@)
                    &&& final(self).index().has_block(fingerprint@)
                    &&& chunks_of(final(self).index().chunks, fingerprint@).len() >= 1
                    &&& final(self).index().chunks.len() == old(self).index().chunks.len() + 1
                    &&& final(self).index().chunks.drop_last() == old(self).index().chunks
                    &&& final(self).index().chunks.last().block_hash == fingerprint@
                    &&& !final(self).index().chunks.last().is_parity
                },
                Err(_) => final(self).index().chunks == old(self).index().chunks,
            },
            handed(out.1@, bytes@, encoding, encrypted, now),
            old(self).dispatcher().uploads(0, &out.1@, out.2@),
            match out.2@ {
                Err(e) => {
                    &&& out.0 == Err::<hash::Hash, Error>(e)
                    &&& final(self).index() == with_block(
                        old(self).index(),
                        block_record(bytes@, encoding, now),
                    )
                    &&& final(self).ledger().next_chunk_id() == old(self).ledger().next_chunk_id()
                },
                Ok(location) => if old(self).ledger().chunk_ids_exhausted() {
                    &&& out.0 == Err::<hash::Hash, Error>(Error::Index)
                    &&& final(self).index() == with_block(
                        old(self).index(),
                        block_record(bytes@, encoding, now),
                    )
                    &&& final(self).ledger().next_chunk_id() == old(self).ledger().next_chunk_id()
                } else {
                    &&& out.0 is Ok
                    &&& final(self).index() == with_chunk(
                        with_block(old(self).index(), block_record(bytes@, encoding, now)),
                        chunk_record(
                            sha256(bytes@),
                            location@,
                            old(self).ledger().next_chunk_id(),
                            now,
                        ),
                    )
                    &&& final(self).ledger().next_chunk_id() == old(self).ledger().next_chunk_id()
                        + 1
                },
            },
    {
        let mut metadata = BlockMetadata::at(now);
        if encrypted {
            metadata.encryption = Some("aes-256-gcm".to_owned());
        }
        match encoding {
            EncodingType::Plain => {},
            _ => {
                metadata.encoding = encoding.as_str().to_owned();
            },
        }
        let block = Block::new(copy_bytes(bytes), metadata);
        let ghost given = block;
        let fingerprint = block.hash;
        let record = block_record_for(&block, encoding, now);
        let ghost start = self.db@;
        let _ = self.db.insert_block(&record);
        let ghost recorded = self.db@;
        proof {
            assert(recorded == with_block(start, block_record(bytes@, encoding, now)));
            assert(recorded.blocks.take(start.blocks.len() as int) =~= start.blocks);
            assert forall|h: Seq<u8>| start.has_block(h) implies recorded.has_block(h) by {
                let b = choose|b: int| 0 <= b < start.blocks.len() && (#[trigger] start.blocks[b]).hash == h;
                assert(recorded.blocks[b] == start.blocks[b]);
            }
        }
        let answer = self.storage.upload_to_backend(0, &block);
        let ghost seen = answer;
        let location = match answer {
            Ok(location) => location,
            Err(e) => {
                return (Err(e), Ghost(given), Ghost(seen));
            },
        };
        assert(recorded.has_block(fingerprint@));
        let chunk = chunk_record_for(&fingerprint, &location, now);
        match self.db.insert_chunk(&chunk) {
            Ok(id) => {
                proof {
                    let last = self.db@;
                    assert(last.blocks == recorded.blocks);
                    assert(last.chunks.drop_last() =~= start.chunks);
                    assert(ChunkRecordView { id, ..chunk@ } == chunk_record(
                        sha256(bytes@),
                        location@,
                        id as int,
                        now,
                    ));
                    assert forall|h: Seq<u8>| start.has_block(h) implies last.has_block(h) by {
                        assert(recorded.has_block(h));
                        let b = choose|b: int|
                            0 <= b < recorded.blocks.len() && (#[trigger] recorded.blocks[b]).hash
                                == h;
                        assert(last.blocks[b].hash == h);
                    }
                    assert(last.has_block(fingerprint@)) by {
                        let b = choose|b: int|
                            0 <= b < recorded.blocks.len() && (#[trigger] recorded.blocks[b]).hash
                                == fingerprint@;
                        assert(last.blocks[b].hash == fingerprint@);
                    }
                    assert forall|h: Seq<u8>|
                        #![trigger chunks_of(last.chunks, h)]
                        chunks_of(last.chunks, h).len() >= chunks_of(start.chunks, h).len() by {
                        lemma_chunks_of_push(
                            recorded.chunks,
                            ChunkRecordView { id, ..chunk@ },
                            h,
                        );
                    }
                    lemma_chunks_of_push(
                        recorded.chunks,
                        ChunkRecordView { id, ..chunk@ },
                        fingerprint@,
                    );
                }
                (Ok(fingerprint), Ghost(given), Ghost(seen))
            },
            Err(e) => (Err(e), Ghost(given), Ghost(seen)),
        }
    }

    /// Uploads a file: seals it if encryption is asked for, runs it
    /// through the codec asked for, cuts the result into blocks, stores
    /// each block on the first backend, and puts the file on record in place
    /// of any file under the same path.
    ///
    /// An upload that is refused changes nothing. Any other upload is a
    /// run, and index and answer are exactly what `upload_ran` says of the
    /// run: in particular the upload succeeds unless staging fails, the
    /// dispatcher answers an upload with a failure, or no identifier is
    /// left. On failure the files on record and their manifests are as
    /// before; blocks and copies stored so far stay on record.
    pub fn upload(&mut self, file_path: &str, data: Vec<u8>, options: UploadOptions) -> (r: Result<
        UploadResult,
        Error,
    >)
        requires
            old(self).wf(),
        ensures
            final(self).wf(),
            final(self).block_size() == old(self).block_size(),
            final(self).dispatcher() == old(self).dispatcher(),
            match refused(data@.len(), options) {
                Some(e) => {
                    &&& r == Err::<UploadResult, Error>(e)
                    &&& final(self).ledger() == old(self).ledger()
                },
                None => exists|run: UploadRun| #[trigger]
                    upload_ran(
                        old(self).ledger(),
                        final(self).ledger(),
                        old(self).dispatcher(),
                        old(self).block_size(),
                        file_path@,
                        data@,
                        options,
                        r,
                        run,
                    ),
            },
            data@.len() == 0 && options.encoding == EncodingType::Plain && !options.encrypt ==> (r
                is Ok <==> !old(self).ledger().file_ids_exhausted()),
            r is Ok && options.encoding == EncodingType::Plain ==> r.unwrap().total_blocks
                == chunk_count(
                data@.len() + (if options.encrypt {
                    28int
                } else {
                    0int
                }),
                old(self).block_size(),
            ),
            match r {
                Ok(result) => {
                    &&& result.original_size == data@.len()
                    &&& result.encrypted == options.encrypt
                    &&& result.encoding == (if options.encoding == EncodingType::Plain {
                        None
                    } else {
                        Some(options.encoding)
                    })
                    &&& stored(
                        final(self).index(),
                        file_path@,
                        data@.len(),
                        result.total_blocks as nat,
                    )
                    &&& trail(
                        old(self).index().chunks,
                        final(self).index().chunks,
                        final(self).index().manifests.last(),
                    )
                    &&& manifest_of(
                        final(self).index().manifests.last(),
                        final(self).block_size(),
                        data@,
                        options.encoding,
                        secret(options),
                        final(self).index().files.last().salt,
                    )
                },
                Err(_) => {
                    &&& final(self).index().files == old(self).index().files
                    &&& final(self).index().manifests == old(self).index().manifests
                    &&& continues(old(self).index().chunks, final(self).index().chunks)
                },
            },
            continues(old(self).index().blocks, final(self).index().blocks),
    {
        assert(continues(old(self).index().blocks, old(self).index().blocks)) by {
            assert(old(self).index().blocks.take(old(self).index().blocks.len() as int)
                =~= old(self).index().blocks);
        }
        assert(continues(old(self).index().chunks, old(self).index().chunks)) by {
            assert(old(self).index().chunks.take(old(self).index().chunks.len() as int)
                =~= old(self).index().chunks);
        }
        let original_size = data.len();
        if original_size as u64 > 0x7fff_ffff_ffff_ffff {
            return Err(Error::Index);
        }
        let encoding = options.encoding;
        let encrypted = options.encrypt;
        let password: Option<String> = if encrypted {
            match options.password {
                Some(password) => Some(password),
                None => {
                    return Err(Error::Config);
                },
            }
        } else {
            None
        };
        assert(optional_text(password) == secret(options));
        let now = unix_now();
        let salt: Vec<u8> = if encrypted {
            copy_bytes(random_bytes::<16>().as_slice())
        } else {
            Vec::new()
        };
        let nonce = random_bytes::<12>();
        let ghost given = data@;
        let ghost origin = self.db;
        let ghost first = self.index();
        let ghost first_id = self.db.next_chunk_id();
        let ghost mut blocks: Seq<Block> = Seq::empty();
        let ghost mut answers: Seq<Result<Location, Error>> = Seq::empty();
        let ghost mut places: Seq<LocationView> = Seq::empty();
        let buffer = match stage_upload(data, encoding, &password, salt.as_slice(), nonce) {
            Ok(buffer) => buffer,
            Err(e) => {
                proof {
                    let run = UploadRun {
                        now,
                        salt: salt@,
                        nonce: nonce@,
                        blocks,
                        answers,
                        stored: 0,
                    };
                    assert(upload_ran(
                        origin,
                        self.ledger(),
                        old(self).dispatcher(),
                        old(self).block_size(),
                        file_path@,
                        given,
                        options,
                        Err::<UploadResult, Error>(e),
                        run,
                    ));
                }
                return Err(e);
            },
        };
        let size = self.block_size;
        let len = buffer.len();
        proof {
            vstd::arithmetic::div_mod::lemma_fundamental_div_mod(len as int, size as int);
            if len % size != 0 {
                assert(len / size < len) by (nonlinear_arith)
                    requires
                        len == size * (len / size) + len % size,
                        0 < len % size < size,
                        len / size >= 0,
                ;
            }
        }
        let count = if len % size == 0 {
            len / size
        } else {
            len / size + 1
        };
        let ghost expected = block_fingerprints(buffer@, size as int);
        let mut hashes: Vec<hash::Hash> = Vec::new();
        let mut manifest: Vec<Vec<u8>> = Vec::new();
        let mut i: usize = 0;
        let mut start: usize = 0;
        assert(0 * size == 0);
        while i < count
            invariant
                self.wf(),
                self.block_size() == old(self).block_size(),
                self.dispatcher() == old(self).dispatcher(),
                size == self.block_size(),
                1 <= size <= 0x7fff_ffff,
                len == buffer@.len(),
                len == size * (len / size) + len % size,
                0 <= len % size < size,
                count == chunk_count(len as int, size as int),
                expected == block_fingerprints(buffer@, size as int),
                self.index().files == old(self).index().files,
                self.index().manifests == old(self).index().manifests,
                first == old(self).index(),
                first == origin@,
                origin == old(self).ledger(),
                first_id == origin.next_chunk_id(),
                given == data@,
                refused(given.len(), options) is None,
                encoding == options.encoding,
                encrypted == options.encrypt,
                nonce@.len() == 12,
                salt@.len() == (if encrypted {
                    16int
                } else {
                    0int
                }),
                staged(given, encoding, secret(options), salt@, nonce@) == Ok::<Seq<u8>, Error>(
                    buffer@,
                ),
                self.ledger().next_file_id() == origin.next_file_id(),
                self.ledger().next_chunk_id() == first_id + i,
                blocks.len() == i,
                answers.len() == i,
                places.len() == i,
                forall|j: int|
                    0 <= j < i ==> handed(
                        #[trigger] blocks[j],
                        chunk_at(buffer@, size as int, j),
                        encoding,
                        encrypted,
                        now,
                    ) && old(self).dispatcher().uploads(0, &blocks[j], answers[j]),
                forall|j: int|
                    0 <= j < i ==> (#[trigger] answers[j]) is Ok && answers[j].unwrap()@
                        == places[j],
                self.index() == after_blocks(
                    first,
                    first_id,
                    buffer@,
                    size as int,
                    encoding,
                    now,
                    places,
                    i as nat,
                ),
                continues(first.blocks, self.index().blocks),
                continues(first.chunks, self.index().chunks),
                self.index().chunks.len() == first.chunks.len() + i,
                forall|j: int|
                    0 <= j < i ==> (#[trigger] self.index().chunks[first.chunks.len() + j]).block_hash
                        == expected[j] && !self.index().chunks[first.chunks.len() + j].is_parity,
                i <= count,
                i < count ==> start == i * size && start < len,
                hashes@.len() == i,
                manifest@.len() == i,
                forall|j: int| 0 <= j < i ==> (#[trigger] manifest@[j])@ == expected[j],
                forall|j: int| 0 <= j < i ==> (#[trigger] hashes@[j])@ == expected[j],
                forall|j: int|
                    0 <= j < i ==> self.index().has_block(#[trigger] expected[j]) && chunks_of(
                        self.index().chunks,
                        expected[j],
                    ).len() >= 1,
            decreases count - i,
        {
            let end = if len - start > size {
                start + size
            } else {
                len
            };
            proof {
                assert((i + 1) * size == i * size + size) by (nonlinear_arith);
                assert(i + 1 < count ==> (i + 1) * size < len) by (nonlinear_arith)
                    requires
                        len == size * (len / size) + len % size,
                        0 <= len % size < size,
                        count <= len / size + 1,
                        len % size == 0 ==> count == len / size,
                        size > 0,
                        i >= 0,
                ;
            }
            let chunk = vstd::slice::slice_subrange(buffer.as_slice(), start, end);
            assert(chunk@ == chunk_at(buffer@, size as int, i as int));
            let ghost before = self.index();
            let (stored_block, Ghost(block), Ghost(answer)) = self.store_block(
                chunk,
                encoding,
                encrypted,
                now,
            );
            proof {
                blocks = blocks.push(block);
                answers = answers.push(answer);
            }
            let fingerprint = match stored_block {
                Ok(fingerprint) => fingerprint,
                Err(e) => {
                    proof {
                        lemma_continues(first.blocks, before.blocks, self.index().blocks);
                        let run = UploadRun {
                            now,
                            salt: salt@,
                            nonce: nonce@,
                            blocks,
                            answers,
                            stored: i as nat,
                        };
                        assert(run_locations(run) =~= places);
                        assert(block_calls(
                            old(self).dispatcher(),
                            buffer@,
                            size as int,
                            encoding,
                            encrypted,
                            run,
                        ));
                        assert(upload_ran(
                            origin,
                            self.ledger(),
                            old(self).dispatcher(),
                            old(self).block_size(),
                            file_path@,
                            given,
                            options,
                            Err::<UploadResult, Error>(e),
                            run,
                        ));
                    }
                    return Err(e);
                },
            };
            proof {
                let place = answer.unwrap()@;
                let grown = places.push(place);
                lemma_after_blocks(
                    first,
                    first_id,
                    buffer@,
                    size as int,
                    encoding,
                    now,
                    places,
                    grown,
                    i as nat,
                );
                places = grown;
                assert forall|j: int| 0 <= j < i implies self.index().has_block(
                    #[trigger] expected[j],
                ) && chunks_of(self.index().chunks, expected[j]).len() >= 1 by {
                    assert(before.has_block(expected[j]));
                    assert(chunks_of(self.index().chunks, expected[j]).len() >= chunks_of(
                        before.chunks,
                        expected[j],
                    ).len());
                }
                let after = self.index();
                lemma_continues(first.blocks, before.blocks, after.blocks);
                assert(after.chunks.take(first.chunks.len() as int) =~= first.chunks) by {
                    assert forall|t: int| 0 <= t < first.chunks.len() implies after.chunks[t]
                        == first.chunks[t] by {
                        assert(after.chunks.drop_last()[t] == after.chunks[t]);
                        assert(before.chunks.take(first.chunks.len() as int)[t]
                            == before.chunks[t]);
                    }
                }
                assert forall|j: int| 0 <= j < i + 1 implies (#[trigger] after.chunks[first.chunks.len()
                    + j]).block_hash == expected[j] && !after.chunks[first.chunks.len()
                    + j].is_parity by {
                    if j < i {
                        assert(after.chunks.drop_last()[first.chunks.len() + j]
                            == after.chunks[first.chunks.len() + j]);
                    }
                }
            }
            manifest.push(copy_bytes(fingerprint.0.as_slice()));
            hashes.push(fingerprint);
            start = end;
            i += 1;
        }
        let root = File::compute_merkle_root(hashes.as_slice());
        proof {
            assert(fingerprints(hashes@) =~= expected);
            assert(bytes_views(manifest@) =~= expected);
        }
        let file = FileRecord {
            id: 0,
            path: file_path.to_owned(),
            root_hash: copy_bytes(root.0.as_slice()),
            size: original_size as i64,
            created_at: now,
            modified_at: now,
            accessed_at: now,
            salt,
        };
        let ghost before = self.index();
        proof {
            self.db.lemma_wf();
        }
        let ghost run = UploadRun {
            now,
            salt: file.salt@,
            nonce: nonce@,
            blocks,
            answers,
            stored: count as nat,
        };
        proof {
            assert(run_locations(run) =~= places);
            assert(block_calls(
                old(self).dispatcher(),
                buffer@,
                size as int,
                encoding,
                encrypted,
                run,
            ));
        }
        let filed_as = self.db.put_file(&file, &manifest);
        let result = UploadResult {
            original_size,
            total_blocks: count,
            encrypted,
            encoding: match encoding {
                EncodingType::Plain => None,
                _ => Some(encoding),
            },
        };
        match filed_as {
            Ok(id) => {
                proof {
                    let index = self.index();
                    self.db.lemma_wf();
                    let pruned = before.without_path(file_path@);
                    assert(pruned.files.len() == pruned.manifests.len());
                    assert(index.files == pruned.files.push(FileRecordView { id, ..file@ }));
                    assert(index.manifests == pruned.manifests.push(bytes_views(manifest@)));
                    assert(index.manifests.last() == expected);
                    assert(index.chunks == before.chunks);
                    assert(index.blocks == before.blocks);
                    assert(index.files.last() == file_record(
                        id as int,
                        file_path@,
                        given.len(),
                        buffer@,
                        size as int,
                        run,
                    ));
                    assert forall|j: int| 0 <= j < index.manifests.last().len() implies index.has_block(
                        #[trigger] index.manifests.last()[j],
                    ) && chunks_of(index.chunks, index.manifests.last()[j]).len() >= 1 by {
                        assert(before.has_block(expected[j]));
                        let b = choose|b: int|
                            0 <= b < before.blocks.len() && (#[trigger] before.blocks[b]).hash
                                == expected[j];
                        assert(index.blocks[b].hash == expected[j]);
                    }
                    assert(staged(given, encoding, secret(options), file.salt@, nonce@) is Ok);
                    assert(upload_ran(
                        origin,
                        self.ledger(),
                        old(self).dispatcher(),
                        old(self).block_size(),
                        file_path@,
                        given,
                        options,
                        Ok::<UploadResult, Error>(result),
                        run,
                    ));
                }
                Ok(result)
            },
            Err(e) => {
                proof {
                    assert(upload_ran(
                        origin,
                        self.ledger(),
                        old(self).dispatcher(),
                        old(self).block_size(),
                        file_path@,
                        given,
                        options,
                        Err::<UploadResult, Error>(e),
                        run,
                    ));
                }
                Err(e)
            },
        }
    }

    /// Fetches the bytes of one block: the first stored copy that can be
    /// downloaded and has the block's fingerprint. Also tells the tries
    /// made.
    ///
    /// Fails with the failure of the last copy tried, or with
    /// `BlockNotFound` where no copy is on record or the last one tried
    /// held other bytes.
    fn fetch_block(&self, fingerprint: &[u8]) -> (out: (Result<Vec<u8>, Error>, Ghost<Seq<Try>>))
        requires
            self.wf(),
        ensures
            out.0 is Ok ==> sha256(out.0.unwrap()@) == fingerprint@,
            tried(
                self.dispatcher(),
                chunks_of(self.index().chunks, fingerprint@),
                fingerprint@,
                out.1@,
            ),
            answers_with(out.0, fetched(out.1@, fingerprint@)),
    {
        let ghost mut tries: Seq<Try> = Seq::empty();
        let copies = match self.db.get_chunks_for_block(fingerprint) {
            Ok(copies) => copies,
            Err(e) => {
                return (Err(e), Ghost(tries));
            },
        };
        let ghost on_record = chunks_of(self.index().chunks, fingerprint@);
        let mut failure = Error::BlockNotFound;
        let mut c: usize = 0;
        assert(copies@.len() == crate::db::chunk_views(copies@).len());
        while c < copies.len()
            invariant
                self.wf(),
                c <= copies@.len(),
                on_record == chunks_of(self.index().chunks, fingerprint@),
                crate::db::chunk_views(copies@) == on_record,
                copies@.len() == on_record.len(),
                tries.len() == c,
                forall|t: int|
                    0 <= t < c ==> (#[trigger] tries[t]).location@ == location_of_copy(on_record[t])
                        && self.dispatcher().downloads(&tries[t].location, tries[t].answer),
                forall|t: int| 0 <= t < c ==> !good((#[trigger] tries[t]).answer, fingerprint@),
                fetched(tries, fingerprint@) == Err::<Seq<u8>, Error>(failure),
            decreases copies@.len() - c,
        {
            let location = location_for_copy(&copies[c]);
            assert(crate::db::chunk_views(copies@)[c as int] == copies@[c as int]@);
            let answer = self.storage.download_from_location(&location);
            proof {
                tries = tries.push(Try { location, answer });
            }
            match answer {
                Ok(bytes) => {
                    let found = hash::Hash::from_data(bytes.as_slice());
                    if same_bytes(found.0.as_slice(), fingerprint) {
                        return (Ok(bytes), Ghost(tries));
                    }
                    failure = Error::BlockNotFound;
                },
                Err(e) => {
                    failure = e;
                },
            }
            c += 1;
        }
        (Err(failure), Ghost(tries))
    }

    /// Downloads a file: fetches the blocks of its manifest in order,
    /// checks each against its fingerprint, runs the bytes backwards
    /// through the codec that the first block names, and opens them if a
    /// password is given.
    ///
    /// A download is a run, and the answer is exactly what `download_ran`
    /// says of the run: in particular it fails with `FileNotFound` if no
    /// file is on record under the path, and otherwise fails only with the
    /// failure of a block that cannot be fetched, of a first block that is
    /// not on record, or of finishing.
    pub fn download(&self, file_path: &str, password: Option<String>) -> (r: Result<Vec<u8>, Error>)
        requires
            self.wf(),
        ensures
            !self.index().has_path(file_path@) ==> r is Err && r->Err_0 == Error::FileNotFound,
            exists|run: DownloadRun| #[trigger]
                download_ran(
                    self.index(),
                    self.dispatcher(),
                    file_path@,
                    optional_text(password),
                    r,
                    run,
                ),
            r is Ok ==> exists|i: int|
                0 <= i < self.index().files.len() && i < self.index().manifests.len() && (
                #[trigger] self.index().files[i]).path == file_path@ && recovered(
                    r.unwrap()@,
                    self.index(),
                    self.index().manifests[i],
                    optional_text(password),
                    self.index().files[i].salt,
                ),
    {
        let ghost index = self.index();
        let ghost mut tries: Seq<Seq<Try>> = Seq::empty();
        let file = match self.db.get_file_by_path(file_path) {
            Ok(Some(file)) => file,
            _ => {
                proof {
                    assert(download_ran(
                        index,
                        self.dispatcher(),
                        file_path@,
                        optional_text(password),
                        Err::<Vec<u8>, Error>(Error::FileNotFound),
                        DownloadRun { tries },
                    ));
                }
                return Err(Error::FileNotFound);
            },
        };
        let ghost at = index.path_index(file_path@);
        proof {
            self.db.lemma_wf();
            let k = choose|k: int| 0 <= k < index.files.len() && index.files[k] == file@;
            assert(index.files[k].path == file_path@);
            assert(index.has_path(file_path@));
            assert(index.has_file_id(file.id));
            if k < at {
                assert(index.files[k].path != index.files[at].path);
            } else if at < k {
                assert(index.files[at].path != index.files[k].path);
            }
        }
        let manifest = match self.db.get_file_blocks(file.id) {
            Ok(manifest) => manifest,
            Err(e) => {
                return Err(e);
            },
        };
        proof {
            let i = choose|i: int|
                0 <= i < index.files.len() && (#[trigger] index.files[i]).id == file.id && i
                    < index.manifests.len() && index.manifests[i] == bytes_views(manifest@);
            if i < at {
                assert(index.files[i].id != index.files[at].id);
            } else if at < i {
                assert(index.files[at].id != index.files[i].id);
            }
        }
        let ghost wanted = bytes_views(manifest@);
        let mut buffer: Vec<u8> = Vec::new();
        let ghost mut parts: Seq<Seq<u8>> = Seq::empty();
        let mut b: usize = 0;
        while b < manifest.len()
            invariant
                self.wf(),
                index == self.index(),
                index.has_path(file_path@),
                at == index.path_index(file_path@),
                wanted == bytes_views(manifest@),
                index.manifests[at] == wanted,
                b <= manifest@.len(),
                parts.len() == b,
                tries.len() == b,
                buffer@ == flat(parts),
                forall|j: int| 0 <= j < b ==> sha256(#[trigger] parts[j]) == manifest@[j]@,
                forall|j: int|
                    0 <= j < b ==> tried(
                        self.dispatcher(),
                        chunks_of(index.chunks, wanted[j]),
                        wanted[j],
                        #[trigger] tries[j],
                    ),
                forall|j: int|
                    0 <= j < b ==> fetched(#[trigger] tries[j], wanted[j]) == Ok::<Seq<u8>, Error>(
                        parts[j],
                    ),
            decreases manifest@.len() - b,
        {
            let (fetched_block, Ghost(made)) = self.fetch_block(manifest[b].as_slice());
            proof {
                assert(wanted[b as int] == manifest@[b as int]@);
                tries = tries.push(made);
            }
            let mut bytes = match fetched_block {
                Ok(bytes) => bytes,
                Err(e) => {
                    proof {
                        assert(download_ran(
                            index,
                            self.dispatcher(),
                            file_path@,
                            optional_text(password),
                            Err::<Vec<u8>, Error>(e),
                            DownloadRun { tries },
                        ));
                    }
                    return Err(e);
                },
            };
            proof {
                let next = parts.push(bytes@);
                assert(next.drop_last() =~= parts);
                parts = next;
            }
            buffer.append(&mut bytes);
            b += 1;
        }
        let ghost run = DownloadRun { tries };
        proof {
            assert(run_parts(run, wanted) =~= parts);
        }
        let encoding = if manifest.len() == 0 {
            EncodingType::Plain
        } else {
            match self.db.get_block(manifest[0].as_slice()) {
                Ok(Some(block)) => {
                    proof {
                        let k = choose|k: int|
                            0 <= k < index.blocks.len() && index.blocks[k] == block@;
                        assert(index.blocks[k].hash == manifest@[0]@);
                        let j = index.block_index(wanted[0]);
                        if j < k {
                            assert(index.blocks[j].hash != index.blocks[k].hash);
                        } else if k < j {
                            assert(index.blocks[k].hash != index.blocks[j].hash);
                        }
                    }
                    EncodingType::from_record_name(&block.encoding_strategy)
                },
                _ => {
                    proof {
                        assert(download_ran(
                            index,
                            self.dispatcher(),
                            file_path@,
                            optional_text(password),
                            Err::<Vec<u8>, Error>(Error::BlockNotFound),
                            run,
                        ));
                    }
                    return Err(Error::BlockNotFound);
                },
            }
        };
        assert(codec_of(index, bytes_views(manifest@), encoding));
        assert(encoding == read_codec(index, wanted));
        let r = finish_download(buffer, encoding, &password, file.salt.as_slice());
        proof {
            assert(answered(
                index,
                wanted,
                optional_text(password),
                index.files[at].salt,
                run_parts(run, wanted),
                r,
            ));
            assert(download_ran(
                index,
                self.dispatcher(),
                file_path@,
                optional_text(password),
                r,
                run,
            ));
            if r is Ok {
                assert(finished(flat(parts), encoding, optional_text(password), file.salt@) == Ok::<
                    Seq<u8>,
                    Error,
                >(r.unwrap()@));
                assert(recovered(
                    r.unwrap()@,
                    index,
                    index.manifests[at],
                    optional_text(password),
                    index.files[at].salt,
                ));
            }
        }
        r
    }

    /// Deletes a file: removes the stored copies of those of its blocks
    /// that no other file has, as far as the backends allow, and takes the
    /// file off the record. The other files, the blocks and the chunks stay
    /// on record.
    ///
    /// Fails with `FileNotFound`, and changes nothing, exactly if no file
    /// is on record under the path. A backend that fails to delete does not
    /// fail the call.
    pub fn delete(&mut self, file_path: &str) -> (r: Result<(), Error>)
        requires
            old(self).wf(),
        ensures
            final(self).wf(),
            final(self).block_size() == old(self).block_size(),
            final(self).dispatcher() == old(self).dispatcher(),
            final(self).ledger().next_file_id() == old(self).ledger().next_file_id(),
            final(self).ledger().next_chunk_id() == old(self).ledger().next_chunk_id(),
            final(self).index() == old(self).index().without_path(file_path@),
            final(self).index().blocks == old(self).index().blocks,
            final(self).index().chunks == old(self).index().chunks,
            r is Ok <==> old(self).index().has_path(file_path@),
            match r {
                Ok(_) => !final(self).index().has_path(file_path@),
                Err(e) => {
                    &&& e == Error::FileNotFound
                    &&& final(self).index() == old(self).index()
                },
            },
    {
        let file = match self.db.get_file_by_path(file_path) {
            Ok(Some(file)) => file,
            _ => {
                return Err(Error::FileNotFound);
            },
        };
        proof {
            let index = self.index();
            let k = choose|k: int| 0 <= k < index.files.len() && index.files[k] == file@;
            assert(index.files[k].path == file_path@);
        }
        match self.db.get_file_blocks(file.id) {
            Ok(manifest) => {
                let mut b: usize = 0;
                while b < manifest.len()
                    invariant
                        self.wf(),
                        *self == *old(self),
                        b <= manifest@.len(),
                    decreases manifest@.len() - b,
                {
                    if !self.db.is_block_shared(manifest[b].as_slice(), file.id) {
                        self.delete_copies(manifest[b].as_slice());
                    }
                    b += 1;
                }
            },
            Err(_) => {},
        }
        let _ = self.db.delete_file(file_path);
        Ok(())
    }

    /// Asks the backends to delete every stored copy of a block, whatever
    /// they answer.
    fn delete_copies(&self, fingerprint: &[u8])
        requires
            self.wf(),
    {
        match self.db.get_chunks_for_block(fingerprint) {
            Ok(copies) => {
                let mut c: usize = 0;
                while c < copies.len()
                    invariant
                        self.wf(),
                        c <= copies@.len(),
                    decreases copies@.len() - c,
                {
                    let location = location_for_copy(&copies[c]);
                    let _ = self.storage.delete_at_location(&location);
                    c += 1;
                }
            },
            Err(_) => {},
        }
    }
}

} // verus!
