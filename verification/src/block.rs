//! Content-addressed blocks.

use vstd::prelude::*;
use crate::clock::unix_now;
use crate::hash;
use crate::hash::sha256;
use crate::storage::{Location, LocationView};

verus! {

/// What is recorded about a block besides its bytes.
#[derive(Clone, Debug)]
pub struct BlockMetadata {
    /// Name of the encoding the bytes are in.
    pub encoding: String,
    /// Whether the block is a parity shard.
    pub is_parity: bool,
    /// Name of the compression applied, if any.
    pub compression: Option<String>,
    /// Name of the encryption applied, if any.
    pub encryption: Option<String>,
    /// Time of creation, seconds since the Unix epoch.
    pub created_at: i64,
}

impl BlockMetadata {
    /// Metadata of a raw data block created at `now`.
    pub fn at(now: i64) -> (m: BlockMetadata)
        ensures
            m.encoding@ == "raw"@,
            !m.is_parity,
            m.compression is None,
            m.encryption is None,
            m.created_at == now,
    {
        BlockMetadata {
            encoding: "raw".to_owned(),
            is_parity: false,
            compression: None,
            encryption: None,
            created_at: now,
        }
    }
}

impl Default for BlockMetadata {
    /// Metadata of a raw data block stamped with the current time.
    fn default() -> (m: BlockMetadata)
        ensures
            m.encoding@ == "raw"@,
            !m.is_parity,
            m.compression is None,
            m.encryption is None,
    {
        BlockMetadata::at(unix_now())
    }
}

/// The contents of a list of locations.
pub open spec fn location_views(locations: Seq<Location>) -> Seq<LocationView> {
    Seq::new(locations.len(), |i: int| locations[i]@)
}

/// A byte buffer under its fingerprint.
#[derive(Clone, Debug)]
pub struct Block {
    /// Fingerprint of `data`.
    pub hash: hash::Hash,
    /// The bytes.
    pub data: Vec<u8>,
    /// Number of bytes.
    pub size: usize,
    /// Descriptive metadata.
    pub metadata: BlockMetadata,
    /// Where copies of the block are stored, without repetition.
    pub locations: Vec<Location>,
}

impl Block {
    /// Whether the fingerprint is that of the bytes.
    pub open spec fn intact(&self) -> bool {
        self.hash@ == sha256(self.data@)
    }

    /// Whether the block is intact, knows its size, and lists no location
    /// twice.
    pub open spec fn wf(&self) -> bool {
        &&& self.intact()
        &&& self.size == self.data@.len()
        &&& location_views(self.locations@).no_duplicates()
    }

    /// Builds a block from bytes and metadata, computing the fingerprint.
    pub fn new(data: Vec<u8>, metadata: BlockMetadata) -> (block: Block)
        ensures
            block.wf(),
            block.data == data,
            block.metadata == metadata,
            block.locations@.len() == 0,
    {
        let hash = hash::Hash::from_data(data.as_slice());
        let size = data.len();
        Block { hash, data, size, metadata, locations: Vec::new() }
    }

    /// Builds a raw data block stamped with the current time.
    pub fn from_data(data: Vec<u8>) -> (block: Block)
        ensures
            block.wf(),
            block.data == data,
            block.metadata.encoding@ == "raw"@,
            !block.metadata.is_parity,
            block.metadata.compression is None,
            block.metadata.encryption is None,
            block.locations@.len() == 0,
    {
        Block::new(data, BlockMetadata::default())
    }

    /// The fingerprint.
    pub fn hash(&self) -> (h: &hash::Hash)
        ensures
            *h == self.hash,
    {
        &self.hash
    }

    /// The bytes.
    pub fn data(&self) -> (bytes: &[u8])
        ensures
            bytes@ == self.data@,
    {
        self.data.as_slice()
    }

    /// Records a location, unless it is on record already.
    pub fn add_location(&mut self, location: Location)
        ensures
            final(self).hash == old(self).hash,
            final(self).data == old(self).data,
            final(self).size == old(self).size,
            final(self).metadata == old(self).metadata,
            location_views(old(self).locations@).contains(location@) ==> final(self).locations
                == old(self).locations,
            !location_views(old(self).locations@).contains(location@) ==> final(self).locations@
                == old(self).locations@.push(location),
            old(self).wf() ==> final(self).wf(),
    {
        let ghost views = location_views(self.locations@);
        let mut i: usize = 0;
        while i < self.locations.len()
            invariant
                i <= self.locations@.len(),
                *self == *old(self),
                views == location_views(self.locations@),
                forall|j: int| 0 <= j < i ==> views[j] != location@,
            decreases self.locations@.len() - i,
        {
            if self.locations[i] == location {
                assert(views[i as int] == location@);
                return ;
            }
            i += 1;
        }
        self.locations.push(location);
        assert(location_views(self.locations@) =~= views.push(location@));
    }

    /// Recomputes the fingerprint and compares it with the stored one.
    pub fn verify(&self) -> (ok: bool)
        ensures
            ok == self.intact(),
    {
        hash::Hash::from_data(self.data.as_slice()) == self.hash
    }
}

} // verus!
