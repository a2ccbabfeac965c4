//! Files as Merkle manifests over block fingerprints.

use vstd::prelude::*;
use crate::clock::unix_now;
use crate::hash;
use crate::hash::sha256;

verus! {

/// The fingerprints of a sequence of hashes, as byte strings.
pub open spec fn fingerprints(hashes: Seq<hash::Hash>) -> Seq<Seq<u8>> {
    Seq::new(hashes.len(), |i: int| hashes[i]@)
}

/// One level up the Merkle tree: consecutive fingerprints are paired left to
/// right and each pair is hashed as one concatenation; a final fingerprint
/// without a partner is paired with itself.
pub open spec fn merkle_pairs(level: Seq<Seq<u8>>) -> Seq<Seq<u8>> {
    Seq::new(
        ((level.len() + 1) / 2) as nat,
        |i: int|
            if 2 * i + 1 < level.len() {
                sha256(level[2 * i] + level[2 * i + 1])
            } else {
                sha256(level[2 * i] + level[2 * i])
            },
    )
}

/// The Merkle root of an ordered sequence of fingerprints: the digest of the
/// empty string for no fingerprint, the fingerprint itself for one, and
/// otherwise the root of the level above.
pub open spec fn merkle_root(level: Seq<Seq<u8>>) -> Seq<u8>
    decreases level.len(),
{
    if level.len() == 0 {
        sha256(Seq::<u8>::empty())
    } else if level.len() == 1 {
        level[0]
    } else {
        merkle_root(merkle_pairs(level))
    }
}

/// The root of exactly two fingerprints is the digest of their concatenation.
pub proof fn lemma_merkle_root_of_two(a: Seq<u8>, b: Seq<u8>)
    ensures
        merkle_root(seq![a, b]) == sha256(a + b),
{
    let level = seq![a, b];
    let up = merkle_pairs(level);
    assert(up.len() == 1);
    assert(up[0] == sha256(level[0] + level[1]));
    assert(merkle_root(level) == merkle_root(up));
    assert(merkle_root(up) == up[0]);
}

/// With two or more fingerprints the root is never read off the input: it is
/// the digest of a concatenation of two fingerprints of some higher level.
pub proof fn lemma_merkle_root_is_digest(level: Seq<Seq<u8>>)
    requires
        level.len() >= 2,
    ensures
        exists|left: Seq<u8>, right: Seq<u8>| merkle_root(level) == sha256(left + right),
    decreases level.len(),
{
    let up = merkle_pairs(level);
    assert(merkle_root(level) == merkle_root(up));
    if up.len() == 1 {
        assert(merkle_root(up) == up[0]);
        assert(up[0] == sha256(level[0] + level[1]));
    } else {
        lemma_merkle_root_is_digest(up);
    }
}

/// Descriptive metadata of a stored file.
#[derive(Clone, Debug)]
pub struct FileMetadata {
    /// Size of the file in bytes.
    pub size: u64,
    /// MIME type, when known.
    pub mime_type: Option<String>,
    /// Creation time, seconds since the Unix epoch.
    pub created_at: i64,
    /// Last modification time, seconds since the Unix epoch.
    pub modified_at: i64,
    /// Last access time, seconds since the Unix epoch.
    pub accessed_at: i64,
    /// POSIX permission bits, when applicable.
    pub permissions: Option<u32>,
    /// Where the file came from, when recorded.
    pub original_path: Option<String>,
    /// Free-form user metadata, in insertion order.
    pub user_metadata: Vec<(String, String)>,
}

impl FileMetadata {
    /// Metadata of an empty, untyped file whose three timestamps are all `now`.
    pub fn at(now: i64) -> (m: FileMetadata)
        ensures
            m.size == 0,
            m.mime_type is None,
            m.created_at == now,
            m.modified_at == now,
            m.accessed_at == now,
            m.permissions is None,
            m.original_path is None,
            m.user_metadata@.len() == 0,
    {
        FileMetadata {
            size: 0,
            mime_type: None,
            created_at: now,
            modified_at: now,
            accessed_at: now,
            permissions: None,
            original_path: None,
            user_metadata: Vec::new(),
        }
    }
}

impl Default for FileMetadata {
    /// Metadata of an empty, untyped file stamped with the current time.
    fn default() -> (m: FileMetadata)
        ensures
            m.size == 0,
            m.mime_type is None,
            m.created_at == m.modified_at,
            m.modified_at == m.accessed_at,
            m.permissions is None,
            m.original_path is None,
            m.user_metadata@.len() == 0,
    {
        FileMetadata::at(unix_now())
    }
}

/// A logical file: a path, the ordered fingerprints of its blocks, and the
/// Merkle root that binds them.
#[derive(Clone, Debug)]
pub struct File {
    /// Logical path of the file.
    pub path: String,
    /// Merkle root over `block_hashes`.
    pub root_hash: hash::Hash,
    /// Fingerprints of the file's blocks, in order.
    pub block_hashes: Vec<hash::Hash>,
    /// Descriptive metadata.
    pub metadata: FileMetadata,
}

/// The 64 bytes of one fingerprint followed by another.
fn concat_pair(left: &hash::Hash, right: &hash::Hash) -> (out: Vec<u8>)
    ensures
        out@ == left@ + right@,
{
    let mut out: Vec<u8> = Vec::with_capacity(64);
    let mut i: usize = 0;
    while i < 32
        invariant
            i <= 32,
            out@ == left@.subrange(0, i as int),
        decreases 32 - i,
    {
        out.push(left.0[i]);
        i += 1;
    }
    assert(left@.subrange(0, 32) == left@);
    let mut j: usize = 0;
    while j < 32
        invariant
            j <= 32,
            out@ == left@ + right@.subrange(0, j as int),
        decreases 32 - j,
    {
        out.push(right.0[j]);
        j += 1;
    }
    assert(right@.subrange(0, 32) == right@);
    out
}

impl File {
    /// Whether the stored root is the Merkle root of the stored manifest.
    pub open spec fn wf(&self) -> bool {
        self.root_hash@ == merkle_root(fingerprints(self.block_hashes@))
    }

    /// Builds a file record, computing the root from the manifest.
    pub fn new(path: String, block_hashes: Vec<hash::Hash>, metadata: FileMetadata) -> (file: File)
        ensures
            file.wf(),
            file.path == path,
            file.block_hashes == block_hashes,
            file.metadata == metadata,
    {
        let root_hash = File::compute_merkle_root(block_hashes.as_slice());
        File { path, root_hash, block_hashes, metadata }
    }

    /// Computes the Merkle root of an ordered sequence of fingerprints.
    pub fn compute_merkle_root(hashes: &[hash::Hash]) -> (root: hash::Hash)
        ensures
            root@ == merkle_root(fingerprints(hashes@)),
    {
        if hashes.len() == 0 {
            let empty: Vec<u8> = Vec::new();
            return hash::Hash::from_data(empty.as_slice());
        }
        let mut current: Vec<hash::Hash> = Vec::new();
        let mut k: usize = 0;
        while k < hashes.len()
            invariant
                k <= hashes.len(),
                current@ == hashes@.subrange(0, k as int),
            decreases hashes.len() - k,
        {
            current.push(hashes[k]);
            k += 1;
        }
        assert(current@ == hashes@);
        while current.len() > 1
            invariant
                current.len() >= 1,
                merkle_root(fingerprints(current@)) == merkle_root(fingerprints(hashes@)),
            decreases current.len(),
        {
            let n = current.len();
            let ghost level = fingerprints(current@);
            let mut next: Vec<hash::Hash> = Vec::new();
            let mut i: usize = 0;
            while i < n
                invariant
                    n == current.len(),
                    level == fingerprints(current@),
                    i <= n,
                    i < n ==> i % 2 == 0,
                    next.len() == (i + 1) / 2,
                    forall|j: int| 0 <= j < next.len() ==> (#[trigger] next[j])@ == merkle_pairs(level)[j],
                decreases n - i,
            {
                if i + 1 < n {
                    let joined = concat_pair(&current[i], &current[i + 1]);
                    next.push(hash::Hash::from_data(joined.as_slice()));
                    i += 2;
                } else {
                    let joined = concat_pair(&current[i], &current[i]);
                    next.push(hash::Hash::from_data(joined.as_slice()));
                    i = n;
                }
            }
            assert(fingerprints(next@) =~= merkle_pairs(level));
            current = next;
        }
        current[0]
    }

    /// Recomputes the root and compares it with the stored one.
    pub fn verify(&self) -> (ok: bool)
        ensures
            ok == self.wf(),
    {
        File::compute_merkle_root(self.block_hashes.as_slice()) == self.root_hash
    }

    /// Size of the file in bytes.
    pub fn size(&self) -> (n: u64)
        ensures
            n == self.metadata.size,
    {
        self.metadata.size
    }

    /// Number of blocks in the manifest.
    pub fn block_count(&self) -> (n: usize)
        ensures
            n == self.block_hashes@.len(),
    {
        self.block_hashes.len()
    }
}

} // verus!
