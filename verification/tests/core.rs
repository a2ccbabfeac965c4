use isg::block::{Block, BlockMetadata};
use isg::file::{File, FileMetadata};
use isg::storage::{Location, StorageMetadata, StorageTier};
use isg::Error;
use sha2::Digest;

fn hex_of(data: &[u8]) -> String {
    isg::hash::Hash::from_data(data).to_hex()
}

#[test]
fn test_hash_from_data() {
    let data = b"hello world";
    let hash1 = isg::hash::Hash::from_data(data);
    let hash2 = isg::hash::Hash::from_data(data);
    assert_eq!(hash1, hash2);
}

#[test]
fn test_hash_hex() {
    let data = b"test";
    let hash = isg::hash::Hash::from_data(data);
    let hex = hash.to_hex();
    let parsed = isg::hash::Hash::from_hex(&hex).unwrap();
    assert_eq!(hash, parsed);
}

#[test]
fn hash_is_sha256() {
    assert_eq!(hex_of(b""), "e3b0c44298fc1c149afbf4c8996fb92427ae41e4649b934ca495991b7852b855");
    assert_eq!(hex_of(b"abc"), "ba7816bf8f01cfea414140de5dae2223b00361a396177a9cb410ff61f20015ad");
    assert_eq!(
        hex_of(b"hello world"),
        "b94d27b9934d3e08a52e52d7da7dabfac484efe37a5380ee9088f7ace2efcde9"
    );
}

#[test]
fn hash_differs_from_its_input() {
    let bytes = [7u8; 32];
    let hash = isg::hash::Hash::from_data(&bytes);
    assert_ne!(hash.as_bytes(), &bytes);
}

#[test]
fn hash_from_bytes_keeps_the_bytes() {
    let mut bytes = [0u8; 32];
    for (i, b) in bytes.iter_mut().enumerate() {
        *b = i as u8;
    }
    let hash = isg::hash::Hash::from_bytes(bytes);
    assert_eq!(hash.as_bytes(), &bytes);
    assert_eq!(
        hash.to_hex(),
        "000102030405060708090a0b0c0d0e0f101112131415161718191a1b1c1d1e1f"
    );
}

#[test]
fn hex_is_lowercase_and_parses_in_either_case() {
    let hash = isg::hash::Hash::from_data(b"case");
    let hex = hash.to_hex();
    assert_eq!(hex.len(), 64);
    assert_eq!(hex, hex.to_lowercase());
    let upper = hex.to_uppercase();
    assert_eq!(isg::hash::Hash::from_hex(&upper).unwrap(), hash);
}

#[test]
fn from_hex_rejects_what_is_no_fingerprint() {
    let good = "ba7816bf8f01cfea414140de5dae2223b00361a396177a9cb410ff61f20015ad";
    assert!(isg::hash::Hash::from_hex(good).is_ok());
    assert_eq!(isg::hash::Hash::from_hex(&good[..62]).unwrap_err(), Error::InvalidHash);
    assert_eq!(isg::hash::Hash::from_hex(&good[..63]).unwrap_err(), Error::InvalidHash);
    let long = format!("{}00", good);
    assert_eq!(isg::hash::Hash::from_hex(&long).unwrap_err(), Error::InvalidHash);
    let bad = format!("{}zz", &good[..62]);
    assert_eq!(isg::hash::Hash::from_hex(&bad).unwrap_err(), Error::InvalidHash);
    assert_eq!(isg::hash::Hash::from_hex("").unwrap_err(), Error::InvalidHash);
    let wide = format!("{}\u{e9}", &good[..62]);
    assert_eq!(isg::hash::Hash::from_hex(&wide).unwrap_err(), Error::InvalidHash);
}

#[test]
fn test_block_creation() {
    let data = b"test data".to_vec();
    let metadata = BlockMetadata::default();
    let block = Block::new(data.clone(), metadata);

    assert_eq!(block.data, data);
    assert_eq!(block.size, data.len());
    assert!(block.verify());
}

#[test]
fn test_block_verification() {
    let data = b"test data".to_vec();
    let metadata = BlockMetadata::default();
    let mut block = Block::new(data, metadata);

    assert!(block.verify());

    // Corrupt the data
    block.data[0] ^= 1;
    assert!(!block.verify());
}

#[test]
fn block_verification_fails_for_every_flipped_bit() {
    let block = Block::from_data(b"bits".to_vec());
    for byte in 0..block.data.len() {
        for bit in 0..8 {
            let mut corrupted = block.clone();
            corrupted.data[byte] ^= 1 << bit;
            assert!(!corrupted.verify());
        }
    }
    assert!(block.verify());
}

#[test]
fn block_from_data_has_default_metadata() {
    let block = Block::from_data(vec![1, 2, 3]);
    assert_eq!(block.hash(), &isg::hash::Hash::from_data(&[1, 2, 3]));
    assert_eq!(block.data(), &[1, 2, 3]);
    assert_eq!(block.size, 3);
    assert_eq!(block.metadata.encoding, "raw");
    assert!(!block.metadata.is_parity);
    assert!(block.metadata.compression.is_none());
    assert!(block.metadata.encryption.is_none());
    assert!(block.locations.is_empty());
}

#[test]
fn block_metadata_at_a_given_time() {
    let metadata = BlockMetadata::at(1234);
    assert_eq!(metadata.created_at, 1234);
    assert_eq!(metadata.encoding, "raw");
}

fn location(platform: &str, identifier: &str) -> Location {
    Location {
        platform: platform.to_string(),
        identifier: identifier.to_string(),
        metadata: StorageMetadata::at(7),
    }
}

#[test]
fn add_location_is_idempotent() {
    let mut block = Block::from_data(b"where".to_vec());
    block.add_location(location("local", "a"));
    block.add_location(location("local", "b"));
    block.add_location(location("local", "a"));
    assert_eq!(block.locations.len(), 2);
    assert_eq!(block.locations[0], location("local", "a"));
    assert_eq!(block.locations[1], location("local", "b"));
    block.add_location(location("discord", "a"));
    assert_eq!(block.locations.len(), 3);
    assert!(block.verify());
}

#[test]
fn locations_compare_by_all_their_content() {
    let a = location("local", "a");
    assert_eq!(a, location("local", "a"));
    assert_ne!(a, location("local", "b"));
    assert_ne!(a, location("remote", "a"));
    let mut later = location("local", "a");
    later.metadata.uploaded_at = 8;
    assert_ne!(a, later);
    let mut with_url = location("local", "a");
    with_url.metadata.url = Some("u".to_string());
    assert_ne!(a, with_url);
    let mut with_extra = location("local", "a");
    with_extra.metadata.extra.push(("k".to_string(), "v".to_string()));
    assert_ne!(a, with_extra);
    let mut larger = location("local", "a");
    larger.metadata.stored_size = 1;
    assert_ne!(a, larger);
}

#[test]
fn test_merkle_root_single() {
    let hash = isg::hash::Hash::from_data(b"test");
    let hashes = vec![hash];
    let root = File::compute_merkle_root(&hashes);
    assert_eq!(root, hash);
}

#[test]
fn test_merkle_root_multiple() {
    let hash1 = isg::hash::Hash::from_data(b"block1");
    let hash2 = isg::hash::Hash::from_data(b"block2");
    let hashes = vec![hash1, hash2];

    let root = File::compute_merkle_root(&hashes);

    // Root should be different from individual hashes
    assert_ne!(root, hash1);
    assert_ne!(root, hash2);

    // Should be deterministic
    let root2 = File::compute_merkle_root(&hashes);
    assert_eq!(root, root2);
}

#[test]
fn test_file_verification() {
    let hash1 = isg::hash::Hash::from_data(b"block1");
    let hash2 = isg::hash::Hash::from_data(b"block2");
    let hashes = vec![hash1, hash2];

    let file = File::new("/test/file.txt".to_string(), hashes.clone(), FileMetadata::default());

    assert!(file.verify());

    // Modify root hash - should fail verification
    let mut file_corrupted = file.clone();
    file_corrupted.root_hash = isg::hash::Hash::from_data(b"wrong");
    assert!(!file_corrupted.verify());
}

fn joined(left: &isg::hash::Hash, right: &isg::hash::Hash) -> isg::hash::Hash {
    let mut bytes = left.as_bytes().to_vec();
    bytes.extend_from_slice(right.as_bytes());
    isg::hash::Hash::from_data(&bytes)
}

#[test]
fn merkle_canonical_values() {
    let h1 = isg::hash::Hash::from_data(b"block1");
    let h2 = isg::hash::Hash::from_data(b"block2");
    assert_eq!(File::compute_merkle_root(&[h1, h2]), joined(&h1, &h2));
    assert_eq!(File::compute_merkle_root(&[h1]), h1);
    assert_eq!(
        File::compute_merkle_root(&[h1, h2]).to_hex(),
        {
            let mut bytes = h1.as_bytes().to_vec();
            bytes.extend_from_slice(h2.as_bytes());
            hex::encode(sha2::Sha256::digest(&bytes))
        }
    );
}

#[test]
fn merkle_root_of_nothing_is_the_hash_of_nothing() {
    assert_eq!(File::compute_merkle_root(&[]), isg::hash::Hash::from_data(b""));
    assert_eq!(
        File::compute_merkle_root(&[]).to_hex(),
        "e3b0c44298fc1c149afbf4c8996fb92427ae41e4649b934ca495991b7852b855"
    );
}

#[test]
fn merkle_pairs_an_odd_one_with_itself() {
    let h: Vec<isg::hash::Hash> =
        (0u8..5).map(|i| isg::hash::Hash::from_data(&[i])).collect();
    let three = File::compute_merkle_root(&h[..3]);
    assert_eq!(three, joined(&joined(&h[0], &h[1]), &joined(&h[2], &h[2])));
    let four = File::compute_merkle_root(&h[..4]);
    assert_eq!(four, joined(&joined(&h[0], &h[1]), &joined(&h[2], &h[3])));
    let five = File::compute_merkle_root(&h);
    let left = joined(&joined(&h[0], &h[1]), &joined(&h[2], &h[3]));
    let last = joined(&h[4], &h[4]);
    assert_eq!(five, joined(&left, &joined(&last, &last)));
}

#[test]
fn merkle_root_depends_on_the_order() {
    let h1 = isg::hash::Hash::from_data(b"block1");
    let h2 = isg::hash::Hash::from_data(b"block2");
    assert_ne!(File::compute_merkle_root(&[h1, h2]), File::compute_merkle_root(&[h2, h1]));
    let root = File::compute_merkle_root(&[h1, h2, h1]);
    assert_ne!(root, h1);
    assert_ne!(root, h2);
}

#[test]
fn file_knows_its_size_and_blocks() {
    let hashes = vec![isg::hash::Hash::from_data(b"a"), isg::hash::Hash::from_data(b"b")];
    let mut metadata = FileMetadata::at(99);
    metadata.size = 2048;
    let file = File::new("f".to_string(), hashes.clone(), metadata);
    assert_eq!(file.size(), 2048);
    assert_eq!(file.block_count(), 2);
    assert_eq!(file.root_hash, File::compute_merkle_root(&hashes));
    assert_eq!(file.metadata.created_at, 99);
    assert_eq!(file.metadata.modified_at, 99);
    assert_eq!(file.metadata.accessed_at, 99);
    let fresh = FileMetadata::default();
    assert_eq!(fresh.size, 0);
    assert_eq!(fresh.created_at, fresh.modified_at);
    assert_eq!(fresh.modified_at, fresh.accessed_at);
    assert!(fresh.mime_type.is_none() && fresh.permissions.is_none());
}

#[test]
fn test_storage_tier() {
    assert_ne!(StorageTier::Hot, StorageTier::Cold);
}

#[test]
fn errors_have_their_names() {
    let all = [
        (Error::Io, "io"),
        (Error::StorageNotFound, "storage-not-found"),
        (Error::StorageLimit, "storage-limit"),
        (Error::StorageNetwork, "storage-network"),
        (Error::StorageUnsupported, "storage-unsupported"),
        (Error::StorageRouteMissing, "storage-route-missing"),
        (Error::CodecFormat, "codec-format"),
        (Error::CodecTruncated, "codec-truncated"),
        (Error::CodecDecode, "codec-decode"),
        (Error::CodecUnimplemented, "codec-unimplemented"),
        (Error::ErasureInsufficient, "erasure-insufficient"),
        (Error::ErasureInternal, "erasure-internal"),
        (Error::CryptoKdf, "crypto-kdf"),
        (Error::CryptoIntegrity, "crypto-integrity"),
        (Error::Index, "index"),
        (Error::FileNotFound, "file-not-found"),
        (Error::BlockNotFound, "block-not-found"),
        (Error::InvalidHash, "invalid-hash"),
        (Error::Config, "config"),
        (Error::Other, "other"),
    ];
    for (error, name) in all {
        assert_eq!(error.name(), name);
    }
}
