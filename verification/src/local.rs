//! The local backend's rules: where a block lives under the root, and what
//! its location says.

use vstd::prelude::*;
use vstd::string::StrSliceExecFns;
use crate::storage::{Location, StorageMetadata, StorageMetadataView, StorageTier};

verus! {

/// Draws an identifier with `uuid::Uuid::new_v4` and renders it with
/// `to_string`: 32 hex digits in five hyphenated groups, 36 characters in
/// all. Nothing else is promised about the text.
#[verifier::external_body]
fn fresh_id() -> (id: String)
    ensures
        id@.len() == 36,
{
    uuid::Uuid::new_v4().to_string()
}

/// The first directory of an identifier: its first two characters, or all
/// of it where it has fewer.
pub open spec fn first_prefix(id: Seq<char>) -> Seq<char> {
    if id.len() >= 2 {
        id.subrange(0, 2)
    } else {
        id
    }
}

/// The second directory of an identifier: its third and fourth character,
/// as far as it has them.
pub open spec fn second_prefix(id: Seq<char>) -> Seq<char> {
    if id.len() >= 4 {
        id.subrange(2, 4)
    } else if id.len() > 2 {
        id.subrange(2, id.len() as int)
    } else {
        Seq::empty()
    }
}

/// A store of blocks as files under a root directory.
#[derive(Clone, Debug)]
pub struct LocalBackend {
    /// The root directory.
    pub root_path: String,
}

impl LocalBackend {
    /// The backend's rules for a root directory.
    pub fn new(root_path: String) -> (backend: LocalBackend)
        ensures
            backend.root_path == root_path,
    {
        LocalBackend { root_path }
    }

    /// The platform name: `local`.
    pub fn name(&self) -> (name: &'static str)
        ensures
            name@ == "local"@,
    {
        "local"
    }

    /// The latency class: hot.
    pub fn tier(&self) -> (tier: StorageTier)
        ensures
            tier == StorageTier::Hot,
    {
        StorageTier::Hot
    }

    /// The path of the block with the given identifier, as components
    /// below one another: the root, the two directories that the
    /// identifier's first characters name, and the identifier.
    pub fn get_file_path(&self, id: &str) -> (path: Vec<String>)
        ensures
            path@.len() == 4,
            path@[0]@ == self.root_path@,
            path@[1]@ == first_prefix(id@),
            path@[2]@ == second_prefix(id@),
            path@[3]@ == id@,
    {
        let len = id.unicode_len();
        let first = if len >= 2 {
            id.substring_char(0, 2)
        } else {
            id
        };
        let second = if len >= 4 {
            id.substring_char(2, 4)
        } else if len > 2 {
            id.substring_char(2, len)
        } else {
            ""
        };
        proof {
            reveal_strlit("");
            assert(""@ =~= Seq::<char>::empty());
        }
        let mut path: Vec<String> = Vec::new();
        path.push(self.root_path.clone());
        path.push(first.to_owned());
        path.push(second.to_owned());
        path.push(id.to_owned());
        path
    }

    /// The location of the block with the given identifier.
    pub fn location_of(id: String, now: i64) -> (location: Location)
        ensures
            location@.platform == "local"@,
            location@.identifier == id@,
            location@.metadata == (StorageMetadataView {
                uploaded_at: now,
                url: None,
                stored_size: 0,
                extra: Seq::empty(),
            }),
    {
        Location { platform: "local".to_owned(), identifier: id, metadata: StorageMetadata::at(now) }
    }

    /// A place for a new block: a fresh identifier, as a location, and the
    /// path that goes with it.
    pub fn allocate(&self, now: i64) -> (r: (Location, Vec<String>))
        ensures
            r.0@.platform == "local"@,
            r.0@.identifier.len() == 36,
            r.0@.metadata.uploaded_at == now,
            r.1@.len() == 4,
            r.1@[0]@ == self.root_path@,
            r.1@[1]@ == first_prefix(r.0@.identifier),
            r.1@[2]@ == second_prefix(r.0@.identifier),
            r.1@[3]@ == r.0@.identifier,
    {
        let id = fresh_id();
        let path = self.get_file_path(id.as_str());
        (Self::location_of(id, now), path)
    }
}

} // verus!
