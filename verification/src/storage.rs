//! Locations, the storage backend interface, and the dispatcher that routes
//! a location to the backend that owns it.

use vstd::prelude::*;
use crate::block::Block;
use crate::clock::unix_now;
use crate::error::Error;
use crate::hash;
use crate::hash::sha256;

verus! {

/// The three latency classes a storage backend can belong to.
#[derive(Clone, Copy, Debug, PartialEq, Eq, Structural)]
pub enum StorageTier {
    /// Fast local storage.
    Hot,
    /// Medium-speed remote storage.
    Warm,
    /// Slow but cheap storage.
    Cold,
}

/// The text of an optional string.
pub open spec fn optional_text(text: Option<String>) -> Option<Seq<char>> {
    match text {
        Some(s) => Some(s@),
        None => None,
    }
}

/// The texts of a list of key and value pairs.
pub open spec fn pairs_text(pairs: Seq<(String, String)>) -> Seq<(Seq<char>, Seq<char>)> {
    Seq::new(pairs.len(), |i: int| (pairs[i].0@, pairs[i].1@))
}

/// Compares two optional strings by their text.
pub fn same_optional_text(a: &Option<String>, b: &Option<String>) -> (same: bool)
    ensures
        same == (optional_text(*a) == optional_text(*b)),
{
    match (a, b) {
        (None, None) => true,
        (Some(x), Some(y)) => *x == *y,
        _ => false,
    }
}

/// Compares two lists of pairs by their texts.
pub fn same_pairs_text(a: &Vec<(String, String)>, b: &Vec<(String, String)>) -> (same: bool)
    ensures
        same == (pairs_text(a@) == pairs_text(b@)),
{
    if a.len() != b.len() {
        return false;
    }
    let mut i: usize = 0;
    while i < a.len()
        invariant
            i <= a@.len(),
            a@.len() == b@.len(),
            forall|j: int| 0 <= j < i ==> pairs_text(a@)[j] == pairs_text(b@)[j],
        decreases a@.len() - i,
    {
        if !(a[i].0 == b[i].0 && a[i].1 == b[i].1) {
            assert(pairs_text(a@)[i as int] != pairs_text(b@)[i as int]);
            return false;
        }
        i += 1;
    }
    assert(pairs_text(a@) =~= pairs_text(b@));
    true
}

/// What a backend records about one stored copy.
#[derive(Clone, Debug)]
pub struct StorageMetadata {
    /// Time of the upload, seconds since the Unix epoch.
    pub uploaded_at: i64,
    /// Public URL of the copy, where there is one.
    pub url: Option<String>,
    /// Size of the copy as stored, in bytes.
    pub stored_size: usize,
    /// Free-form platform data, in insertion order.
    pub extra: Vec<(String, String)>,
}

/// The mathematical content of a [`StorageMetadata`].
pub struct StorageMetadataView {
    pub uploaded_at: i64,
    pub url: Option<Seq<char>>,
    pub stored_size: usize,
    pub extra: Seq<(Seq<char>, Seq<char>)>,
}

impl View for StorageMetadata {
    type V = StorageMetadataView;

    open spec fn view(&self) -> StorageMetadataView {
        StorageMetadataView {
            uploaded_at: self.uploaded_at,
            url: optional_text(self.url),
            stored_size: self.stored_size,
            extra: pairs_text(self.extra@),
        }
    }
}

impl StorageMetadata {
    /// Metadata of an empty copy without URL, uploaded at `now`.
    pub fn at(now: i64) -> (m: StorageMetadata)
        ensures
            m@ == (StorageMetadataView {
                uploaded_at: now,
                url: None,
                stored_size: 0,
                extra: Seq::empty(),
            }),
    {
        let m = StorageMetadata { uploaded_at: now, url: None, stored_size: 0, extra: Vec::new() };
        assert(pairs_text(m.extra@) =~= Seq::empty());
        m
    }
}

impl Default for StorageMetadata {
    /// Metadata of an empty copy without URL, stamped with the current time.
    fn default() -> (m: StorageMetadata)
        ensures
            m@.url is None,
            m@.stored_size == 0,
            m@.extra.len() == 0,
    {
        StorageMetadata::at(unix_now())
    }
}

impl PartialEq for StorageMetadata {
    fn eq(&self, other: &StorageMetadata) -> (r: bool) {
        self.uploaded_at == other.uploaded_at && same_optional_text(&self.url, &other.url)
            && self.stored_size == other.stored_size && same_pairs_text(&self.extra, &other.extra)
    }
}

impl Eq for StorageMetadata {}

impl vstd::std_specs::cmp::PartialEqSpecImpl for StorageMetadata {
    open spec fn obeys_eq_spec() -> bool {
        true
    }

    open spec fn eq_spec(&self, other: &StorageMetadata) -> bool {
        self@ == other@
    }
}

/// Where one copy of a block can be retrieved.
#[derive(Clone, Debug)]
pub struct Location {
    /// Name of the platform; selects the backend.
    pub platform: String,
    /// Platform-specific identifier of the copy.
    pub identifier: String,
    /// What the backend recorded about the copy.
    pub metadata: StorageMetadata,
}

/// The mathematical content of a [`Location`].
pub struct LocationView {
    pub platform: Seq<char>,
    pub identifier: Seq<char>,
    pub metadata: StorageMetadataView,
}

impl View for Location {
    type V = LocationView;

    open spec fn view(&self) -> LocationView {
        LocationView {
            platform: self.platform@,
            identifier: self.identifier@,
            metadata: self.metadata@,
        }
    }
}

impl PartialEq for Location {
    fn eq(&self, other: &Location) -> (r: bool) {
        self.platform == other.platform && self.identifier == other.identifier
            && self.metadata == other.metadata
    }
}

impl Eq for Location {}

impl vstd::std_specs::cmp::PartialEqSpecImpl for Location {
    open spec fn obeys_eq_spec() -> bool {
        true
    }

    open spec fn eq_spec(&self, other: &Location) -> bool {
        self@ == other@
    }
}

/// Counters that a backend reports about itself.
#[derive(Clone, Debug)]
pub struct StorageStats {
    /// Blocks stored.
    pub total_blocks: usize,
    /// Bytes stored.
    pub total_bytes: usize,
    /// Bytes still available, where the platform tells.
    pub available_bytes: Option<usize>,
    /// Free-form platform data, in insertion order.
    pub extra: Vec<(String, String)>,
}

impl Default for StorageStats {
    /// Empty counters.
    fn default() -> (stats: StorageStats)
        ensures
            stats.total_blocks == 0,
            stats.total_bytes == 0,
            stats.available_bytes is None,
            stats.extra@.len() == 0,
    {
        StorageStats { total_blocks: 0, total_bytes: 0, available_bytes: None, extra: Vec::new() }
    }
}

/// The kinds of backend the system knows by name.
#[derive(Clone, Copy, Debug, PartialEq, Eq, Structural)]
pub enum BackendType {
    Local,
    YouTube,
    Discord,
    Telegram,
    R2,
    IPFS,
}

impl BackendType {
    /// The platform name of the kind.
    pub open spec fn spec_as_str(self) -> Seq<char> {
        match self {
            BackendType::Local => "local"@,
            BackendType::YouTube => "youtube"@,
            BackendType::Discord => "discord"@,
            BackendType::Telegram => "telegram"@,
            BackendType::R2 => "r2"@,
            BackendType::IPFS => "ipfs"@,
        }
    }

    /// Returns the platform name of the kind.
    pub fn as_str(&self) -> (name: &'static str)
        ensures
            name@ == self.spec_as_str(),
    {
        match self {
            BackendType::Local => "local",
            BackendType::YouTube => "youtube",
            BackendType::Discord => "discord",
            BackendType::Telegram => "telegram",
            BackendType::R2 => "r2",
            BackendType::IPFS => "ipfs",
        }
    }
}

/// Whether a download found the copy: it did exactly if it succeeded.
pub fn present_from(download: &Result<Vec<u8>, Error>) -> (found: bool)
    ensures
        found == download is Ok,
{
    download.is_ok()
}

/// What a download says of the expected content: its failure, or whether
/// the fingerprint of its bytes is the expected one.
pub open spec fn verified(download: Result<Vec<u8>, Error>, expected: Seq<u8>) -> Result<
    bool,
    Error,
> {
    match download {
        Ok(bytes) => Ok(sha256(bytes@) == expected),
        Err(e) => Err(e),
    }
}

/// Whether a download returned the expected content: the failure of the
/// download, or whether the fingerprint of the bytes is the expected one.
pub fn verify_from(download: Result<Vec<u8>, Error>, expected: &hash::Hash) -> (r: Result<
    bool,
    Error,
>)
    ensures
        r == verified(download, expected@),
{
    match download {
        Ok(bytes) => Ok(hash::Hash::from_data(bytes.as_slice()) == *expected),
        Err(e) => Err(e),
    }
}

/// A store of blocks on some platform.
///
/// Implementations decide where and how bytes are kept; nothing is assumed
/// of them here beyond their signatures.
pub trait StorageBackend {
    /// The stable name of the platform, as it appears in locations.
    fn name(&self) -> String;

    /// The latency class of the platform.
    fn tier(&self) -> StorageTier;

    /// Stores the bytes of a block and says where.
    fn upload(&self, block: &Block) -> Result<Location, Error>;

    /// Fetches the bytes stored at a location.
    fn download(&self, location: &Location) -> Result<Vec<u8>, Error>;

    /// Removes the copy at a location, as far as the platform allows.
    fn delete(&self, location: &Location) -> Result<(), Error>;

    /// Enumerates the stored copies.
    fn list(&self) -> Result<Vec<Location>, Error>;

    /// Whether a copy exists at a location: by default, whether it can be
    /// downloaded. The default downloads once from the location and never
    /// fails: it answers whether that download succeeded.
    fn is_present(&self, location: &Location) -> (r: Result<bool, Error>)
        default_ensures
            exists|download: Result<Vec<u8>, Error>|
                #[trigger] call_ensures(Self::download, (self, location), download) && r == Ok::<
                    bool,
                    Error,
                >(download is Ok),
    {
        let download = self.download(location);
        Ok(present_from(&download))
    }

    /// Counters of the backend: by default, none. The default never fails
    /// and reports no block, no byte, no available space and no extra data.
    fn stats(&self) -> (r: Result<StorageStats, Error>)
        default_ensures
            r is Ok,
            r.unwrap().total_blocks == 0,
            r.unwrap().total_bytes == 0,
            r.unwrap().available_bytes is None,
            r.unwrap().extra@.len() == 0,
    {
        Ok(StorageStats::default())
    }

    /// Whether the copy at a location has the expected fingerprint: by
    /// default, downloads it and compares. The default downloads once from
    /// the location and answers what that download says of the fingerprint.
    fn verify(&self, location: &Location, expected_hash: &hash::Hash) -> (r: Result<bool, Error>)
        default_ensures
            exists|download: Result<Vec<u8>, Error>|
                #[trigger] call_ensures(Self::download, (self, location), download) && r
                    == verified(download, expected_hash@),
    {
        verify_from(self.download(location), expected_hash)
    }
}

/// The index of the first of `names` that equals `platform`.
pub open spec fn first_match(names: Seq<Seq<char>>, platform: Seq<char>) -> Option<int>
    decreases names.len(),
{
    if names.len() == 0 {
        None
    } else {
        match first_match(names.drop_last(), platform) {
            Some(i) => Some(i),
            None => if names.last() == platform {
                Some(names.len() - 1)
            } else {
                None
            },
        }
    }
}

/// What `first_match` finds is the least index whose name is the platform.
pub proof fn lemma_first_match(names: Seq<Seq<char>>, platform: Seq<char>)
    ensures
        match first_match(names, platform) {
            Some(i) => 0 <= i < names.len() && names[i] == platform && forall|j: int|
                0 <= j < i ==> names[j] != platform,
            None => forall|j: int| 0 <= j < names.len() ==> names[j] != platform,
        },
    decreases names.len(),
{
    if names.len() > 0 {
        let init = names.drop_last();
        lemma_first_match(init, platform);
        match first_match(init, platform) {
            Some(i) => {
                assert(init[i] == names[i]);
                assert forall|j: int| 0 <= j < i implies names[j] != platform by {
                    assert(init[j] == names[j]);
                }
            },
            None => {
                assert forall|j: int| 0 <= j < names.len() - 1 implies names[j] != platform by {
                    assert(init[j] == names[j]);
                }
            },
        }
    }
}

/// An ordered collection of backends, each registered under the name it
/// gave at registration.
pub struct StorageManager<B: StorageBackend> {
    backends: Vec<B>,
    names: Vec<String>,
}

impl<B: StorageBackend> StorageManager<B> {
    /// The names of the registered backends, in order of registration.
    pub closed spec fn names(&self) -> Seq<Seq<char>> {
        Seq::new(self.names@.len(), |i: int| self.names@[i]@)
    }

    /// The registered backends, in order of registration.
    pub closed spec fn backends(&self) -> Seq<B> {
        self.backends@
    }

    /// Whether every backend has its name on record.
    pub closed spec fn wf(&self) -> bool {
        self.backends@.len() == self.names@.len()
    }

    /// Whether an answer is one that the dispatcher can give to an upload of
    /// a block to the backend at an index: `StorageRouteMissing` where there
    /// is no such backend, otherwise an answer of that backend's `upload` to
    /// the block.
    pub open spec fn uploads(
        &self,
        backend_idx: int,
        block: &Block,
        answer: Result<Location, Error>,
    ) -> bool {
        if 0 <= backend_idx < self.backends().len() {
            call_ensures(B::upload, (&self.backends()[backend_idx], block), answer)
        } else {
            answer == Err::<Location, Error>(Error::StorageRouteMissing)
        }
    }

    /// Whether an answer is one that the dispatcher can give to a download
    /// from a location: `StorageRouteMissing` where no backend is
    /// registered under the location's platform, otherwise an answer of the
    /// first such backend's `download` from the location.
    pub open spec fn downloads(&self, location: &Location, answer: Result<Vec<u8>, Error>) -> bool {
        match first_match(self.names(), location.platform@) {
            None => answer == Err::<Vec<u8>, Error>(Error::StorageRouteMissing),
            Some(i) => 0 <= i < self.backends().len() && call_ensures(
                B::download,
                (&self.backends()[i], location),
                answer,
            ),
        }
    }

    /// A consistent dispatcher has one name on record for every backend.
    pub proof fn lemma_registered(&self)
        requires
            self.wf(),
        ensures
            self.names().len() == self.backends().len(),
    {
    }

    /// A dispatcher without backends.
    pub fn new() -> (manager: Self)
        ensures
            manager.wf(),
            manager.names().len() == 0,
            manager.backends().len() == 0,
    {
        StorageManager { backends: Vec::new(), names: Vec::new() }
    }

    /// Registers a backend behind those already registered, under the name
    /// that it gives when asked.
    pub fn add_backend(&mut self, backend: B)
        requires
            old(self).wf(),
        ensures
            final(self).wf(),
            final(self).names().len() == old(self).names().len() + 1,
            final(self).names().drop_last() == old(self).names(),
            final(self).backends() == old(self).backends().push(backend),
            exists|name: String| #[trigger]
                call_ensures(B::name, (&backend,), name) && final(self).names().last() == name@,
    {
        let name = backend.name();
        self.backends.push(backend);
        self.names.push(name);
        assert(self.names().drop_last() =~= old(self).names());
    }

    /// Number of registered backends.
    pub fn backend_count(&self) -> (n: usize)
        requires
            self.wf(),
        ensures
            n == self.names().len(),
    {
        self.backends.len()
    }

    /// The index of the backend that owns a platform: the first one
    /// registered under that name.
    pub fn route(&self, platform: &String) -> (r: Option<usize>)
        requires
            self.wf(),
        ensures
            match r {
                Some(i) => first_match(self.names(), platform@) == Some(i as int),
                None => first_match(self.names(), platform@) is None,
            },
    {
        let mut i: usize = 0;
        while i < self.names.len()
            invariant
                i <= self.names@.len(),
                first_match(self.names().take(i as int), platform@) is None,
            decreases self.names@.len() - i,
        {
            proof {
                let upto = self.names().take(i + 1);
                assert(upto.drop_last() =~= self.names().take(i as int));
                assert(upto.last() == self.names@[i as int]@);
            }
            if self.names[i] == *platform {
                proof {
                    self.lemma_match_stays(i as int, platform@);
                }
                return Some(i);
            }
            i += 1;
        }
        assert(self.names().take(i as int) =~= self.names());
        None
    }

    /// A match among the first names is the match among all of them.
    proof fn lemma_match_stays(&self, i: int, platform: Seq<char>)
        requires
            0 <= i < self.names().len(),
            first_match(self.names().take(i + 1), platform) == Some(i),
        ensures
            first_match(self.names(), platform) == Some(i),
    {
        let names = self.names();
        lemma_first_match(names.take(i + 1), platform);
        lemma_first_match(names, platform);
        assert(names.take(i + 1)[i] == names[i]);
        assert forall|j: int| 0 <= j < i implies names[j] != platform by {
            assert(names.take(i + 1)[j] == names[j]);
        }
    }

    /// Uploads a block to the backend at `backend_idx`.
    ///
    /// Fails with `StorageRouteMissing` if there is no such backend;
    /// otherwise returns what that backend returns.
    pub fn upload_to_backend(&self, backend_idx: usize, block: &Block) -> (r: Result<
        Location,
        Error,
    >)
        requires
            self.wf(),
        ensures
            backend_idx >= self.names().len() ==> r == Err::<Location, Error>(
                Error::StorageRouteMissing,
            ),
            backend_idx < self.names().len() ==> backend_idx < self.backends().len()
                && call_ensures(B::upload, (&self.backends()[backend_idx as int], block), r),
            self.uploads(backend_idx as int, block, r),
    {
        if backend_idx < self.backends.len() {
            self.backends[backend_idx].upload(block)
        } else {
            Err(Error::StorageRouteMissing)
        }
    }

    /// Downloads from the backend that owns the location's platform.
    ///
    /// Fails with `StorageRouteMissing` if no backend is registered under
    /// that name; otherwise returns what the owning backend returns.
    pub fn download_from_location(&self, location: &Location) -> (r: Result<Vec<u8>, Error>)
        requires
            self.wf(),
        ensures
            match first_match(self.names(), location.platform@) {
                None => r == Err::<Vec<u8>, Error>(Error::StorageRouteMissing),
                Some(i) => i < self.backends().len() && call_ensures(
                    B::download,
                    (&self.backends()[i], location),
                    r,
                ),
            },
            self.downloads(location, r),
    {
        match self.route(&location.platform) {
            Some(i) => {
                proof {
                    lemma_first_match(self.names(), location.platform@);
                }
                self.backends[i].download(location)
            },
            None => Err(Error::StorageRouteMissing),
        }
    }

    /// Deletes from the backend that owns the location's platform.
    ///
    /// Fails with `StorageRouteMissing` if no backend is registered under
    /// that name; otherwise returns what the owning backend returns.
    pub fn delete_at_location(&self, location: &Location) -> (r: Result<(), Error>)
        requires
            self.wf(),
        ensures
            match first_match(self.names(), location.platform@) {
                None => r == Err::<(), Error>(Error::StorageRouteMissing),
                Some(i) => i < self.backends().len() && call_ensures(
                    B::delete,
                    (&self.backends()[i], location),
                    r,
                ),
            },
    {
        match self.route(&location.platform) {
            Some(i) => {
                proof {
                    lemma_first_match(self.names(), location.platform@);
                }
                self.backends[i].delete(location)
            },
            None => Err(Error::StorageRouteMissing),
        }
    }
}

} // verus!
