//! The index: files, their block manifests, blocks, and the chunks that
//! say where copies of blocks are stored.

use vstd::prelude::*;
use vstd::utf8::encode_utf8;
use crate::bits::{copy_bytes, lex_le, lex_le_bytes, lemma_lex_total, same_bytes};
use crate::error::Error;

verus! {

/// One file of the index.
#[derive(Clone, Debug)]
pub struct FileRecord {
    /// Identifier, assigned by the index.
    pub id: i64,
    /// Logical path; unique in the index.
    pub path: String,
    /// Merkle root over the file's block fingerprints.
    pub root_hash: Vec<u8>,
    /// Size of the original file in bytes.
    pub size: i64,
    /// Creation time, seconds since the Unix epoch.
    pub created_at: i64,
    /// Last modification time, seconds since the Unix epoch.
    pub modified_at: i64,
    /// Last access time, seconds since the Unix epoch.
    pub accessed_at: i64,
    /// Salt of the file's encryption key; empty for a file stored in clear.
    pub salt: Vec<u8>,
}

/// The mathematical content of a [`FileRecord`].
pub struct FileRecordView {
    pub id: i64,
    pub path: Seq<char>,
    pub root_hash: Seq<u8>,
    pub size: i64,
    pub created_at: i64,
    pub modified_at: i64,
    pub accessed_at: i64,
    pub salt: Seq<u8>,
}

impl View for FileRecord {
    type V = FileRecordView;

    open spec fn view(&self) -> FileRecordView {
        FileRecordView {
            id: self.id,
            path: self.path@,
            root_hash: self.root_hash@,
            size: self.size,
            created_at: self.created_at,
            modified_at: self.modified_at,
            accessed_at: self.accessed_at,
            salt: self.salt@,
        }
    }
}

impl FileRecord {
    /// A copy of the record under another identifier.
    pub fn with_id(&self, id: i64) -> (copy: FileRecord)
        ensures
            copy@ == (FileRecordView { id, ..self@ }),
    {
        FileRecord {
            id,
            path: self.path.clone(),
            root_hash: copy_bytes(self.root_hash.as_slice()),
            size: self.size,
            created_at: self.created_at,
            modified_at: self.modified_at,
            accessed_at: self.accessed_at,
            salt: copy_bytes(self.salt.as_slice()),
        }
    }
}

/// One block of the index.
#[derive(Clone, Debug)]
pub struct BlockRecord {
    /// Fingerprint of the block; unique in the index.
    pub hash: Vec<u8>,
    /// Size of the block in bytes.
    pub size: i64,
    /// Name of the encoding of the file that the block belongs to.
    pub encoding_strategy: String,
    /// Creation time, seconds since the Unix epoch.
    pub created_at: i64,
}

/// The mathematical content of a [`BlockRecord`].
pub struct BlockRecordView {
    pub hash: Seq<u8>,
    pub size: i64,
    pub encoding_strategy: Seq<char>,
    pub created_at: i64,
}

impl View for BlockRecord {
    type V = BlockRecordView;

    open spec fn view(&self) -> BlockRecordView {
        BlockRecordView {
            hash: self.hash@,
            size: self.size,
            encoding_strategy: self.encoding_strategy@,
            created_at: self.created_at,
        }
    }
}

impl BlockRecord {
    /// A copy of the record.
    pub fn duplicate(&self) -> (copy: BlockRecord)
        ensures
            copy@ == self@,
    {
        BlockRecord {
            hash: copy_bytes(self.hash.as_slice()),
            size: self.size,
            encoding_strategy: self.encoding_strategy.clone(),
            created_at: self.created_at,
        }
    }
}

/// One stored copy of a block.
#[derive(Clone, Debug)]
pub struct ChunkRecord {
    /// Identifier, assigned by the index.
    pub id: i64,
    /// Fingerprint of the block that the copy is of.
    pub block_hash: Vec<u8>,
    /// Name of the platform that holds the copy.
    pub platform: String,
    /// Platform-specific identifier of the copy.
    pub location: String,
    /// Whether the copy is of a parity shard.
    pub is_parity: bool,
    /// Time of the upload, seconds since the Unix epoch.
    pub uploaded_at: i64,
}

/// The mathematical content of a [`ChunkRecord`].
pub struct ChunkRecordView {
    pub id: i64,
    pub block_hash: Seq<u8>,
    pub platform: Seq<char>,
    pub location: Seq<char>,
    pub is_parity: bool,
    pub uploaded_at: i64,
}

impl View for ChunkRecord {
    type V = ChunkRecordView;

    open spec fn view(&self) -> ChunkRecordView {
        ChunkRecordView {
            id: self.id,
            block_hash: self.block_hash@,
            platform: self.platform@,
            location: self.location@,
            is_parity: self.is_parity,
            uploaded_at: self.uploaded_at,
        }
    }
}

impl ChunkRecord {
    /// A copy of the record under another identifier.
    pub fn with_id(&self, id: i64) -> (copy: ChunkRecord)
        ensures
            copy@ == (ChunkRecordView { id, ..self@ }),
    {
        ChunkRecord {
            id,
            block_hash: copy_bytes(self.block_hash.as_slice()),
            platform: self.platform.clone(),
            location: self.location.clone(),
            is_parity: self.is_parity,
            uploaded_at: self.uploaded_at,
        }
    }
}

/// The contents of a list of byte strings.
pub open spec fn bytes_views(list: Seq<Vec<u8>>) -> Seq<Seq<u8>> {
    Seq::new(list.len(), |i: int| list[i]@)
}

/// Copies a list of byte strings.
pub fn copy_list(list: &Vec<Vec<u8>>) -> (out: Vec<Vec<u8>>)
    ensures
        bytes_views(out@) == bytes_views(list@),
{
    let mut out: Vec<Vec<u8>> = Vec::with_capacity(list.len());
    let mut i: usize = 0;
    while i < list.len()
        invariant
            i <= list@.len(),
            out@.len() == i,
            forall|j: int| 0 <= j < i ==> (#[trigger] out@[j])@ == list@[j]@,
        decreases list@.len() - i,
    {
        out.push(copy_bytes(list[i].as_slice()));
        i += 1;
    }
    assert(bytes_views(out@) =~= bytes_views(list@));
    out
}

/// Whether a list of byte strings holds the given one.
pub fn lists(list: &Vec<Vec<u8>>, wanted: &[u8]) -> (found: bool)
    ensures
        found == exists|i: int|
            0 <= i < bytes_views(list@).len() && bytes_views(list@)[i] == wanted@,
{
    let mut i: usize = 0;
    while i < list.len()
        invariant
            i <= list@.len(),
            forall|j: int| 0 <= j < i ==> bytes_views(list@)[j] != wanted@,
        decreases list@.len() - i,
    {
        if same_bytes(list[i].as_slice(), wanted) {
            assert(bytes_views(list@)[i as int] == wanted@);
            return true;
        }
        i += 1;
    }
    false
}

/// The mathematical content of the index: its files in order of insertion,
/// the block manifest of each file, its blocks and its chunks.
pub struct DatabaseView {
    pub files: Seq<FileRecordView>,
    pub manifests: Seq<Seq<Seq<u8>>>,
    pub blocks: Seq<BlockRecordView>,
    pub chunks: Seq<ChunkRecordView>,
}

impl DatabaseView {
    /// Whether a file is on record under the path.
    pub open spec fn has_path(self, path: Seq<char>) -> bool {
        exists|i: int| 0 <= i < self.files.len() && (#[trigger] self.files[i]).path == path
    }

    /// Whether a file is on record under the identifier.
    pub open spec fn has_file_id(self, id: i64) -> bool {
        exists|i: int| 0 <= i < self.files.len() && (#[trigger] self.files[i]).id == id
    }

    /// Whether a block is on record under the fingerprint.
    pub open spec fn has_block(self, hash: Seq<u8>) -> bool {
        exists|i: int| 0 <= i < self.blocks.len() && (#[trigger] self.blocks[i]).hash == hash
    }

    /// Whether a chunk is on record under the identifier.
    pub open spec fn has_chunk_id(self, id: i64) -> bool {
        exists|i: int| 0 <= i < self.chunks.len() && (#[trigger] self.chunks[i]).id == id
    }

    /// The position of a block on record under the fingerprint.
    pub open spec fn block_index(self, hash: Seq<u8>) -> int {
        choose|i: int| 0 <= i < self.blocks.len() && (#[trigger] self.blocks[i]).hash == hash
    }

    /// The position of a file on record under the path.
    pub open spec fn path_index(self, path: Seq<char>) -> int {
        choose|i: int| 0 <= i < self.files.len() && (#[trigger] self.files[i]).path == path
    }

    /// The index without the file on record under the path, and without
    /// its manifest.
    pub open spec fn without_path(self, path: Seq<char>) -> DatabaseView {
        if self.has_path(path) {
            DatabaseView {
                files: self.files.remove(self.path_index(path)),
                manifests: self.manifests.remove(self.path_index(path)),
                ..self
            }
        } else {
            self
        }
    }

    /// Whether a file other than the given one has the block in its
    /// manifest.
    pub open spec fn shares_block(self, hash: Seq<u8>, file_id: i64) -> bool {
        exists|f: int, b: int|
            0 <= f < self.files.len() && f < self.manifests.len() && 0 <= b
                < self.manifests[f].len() && self.files[f].id != file_id
                && #[trigger] self.manifests[f][b] == hash
    }

    /// The invariants of the index: every file has its manifest; no two
    /// files share a path or an identifier; no two blocks share a
    /// fingerprint; no two chunks share an identifier; and every chunk
    /// is a copy of a block on record.
    pub open spec fn wf(self) -> bool {
        &&& self.manifests.len() == self.files.len()
        &&& forall|i: int, j: int|
            0 <= i < j < self.files.len() ==> (#[trigger] self.files[i]).path != (
            #[trigger] self.files[j]).path && self.files[i].id != self.files[j].id
        &&& forall|i: int, j: int|
            0 <= i < j < self.blocks.len() ==> (#[trigger] self.blocks[i]).hash != (
            #[trigger] self.blocks[j]).hash
        &&& forall|i: int, j: int|
            0 <= i < j < self.chunks.len() ==> (#[trigger] self.chunks[i]).id != (
            #[trigger] self.chunks[j]).id
        &&& forall|i: int|
            0 <= i < self.chunks.len() ==> self.has_block((#[trigger] self.chunks[i]).block_hash)
    }
}

/// The chunks that are copies of the block with the given fingerprint, in
/// order of insertion.
pub open spec fn chunks_of(chunks: Seq<ChunkRecordView>, hash: Seq<u8>) -> Seq<ChunkRecordView>
    decreases chunks.len(),
{
    if chunks.len() == 0 {
        Seq::empty()
    } else if chunks.last().block_hash == hash {
        chunks_of(chunks.drop_last(), hash).push(chunks.last())
    } else {
        chunks_of(chunks.drop_last(), hash)
    }
}

/// The contents of a list of file records.
pub open spec fn file_views(files: Seq<FileRecord>) -> Seq<FileRecordView> {
    Seq::new(files.len(), |i: int| files[i]@)
}

/// The contents of a list of block records.
pub open spec fn block_views(blocks: Seq<BlockRecord>) -> Seq<BlockRecordView> {
    Seq::new(blocks.len(), |i: int| blocks[i]@)
}

/// The contents of a list of chunk records.
pub open spec fn chunk_views(chunks: Seq<ChunkRecord>) -> Seq<ChunkRecordView> {
    Seq::new(chunks.len(), |i: int| chunks[i]@)
}

/// The contents of a list of manifests.
pub open spec fn manifest_views(manifests: Seq<Vec<Vec<u8>>>) -> Seq<Seq<Seq<u8>>> {
    Seq::new(manifests.len(), |i: int| bytes_views(manifests[i]@))
}

/// The key that files are listed by: the bytes of the path.
pub open spec fn path_key(path: Seq<char>) -> Seq<u8> {
    encode_utf8(path)
}

/// The index.
pub struct Database {
    files: Vec<FileRecord>,
    manifests: Vec<Vec<Vec<u8>>>,
    blocks: Vec<BlockRecord>,
    chunks: Vec<ChunkRecord>,
    next_file_id: i64,
    next_chunk_id: i64,
}

impl View for Database {
    type V = DatabaseView;

    closed spec fn view(&self) -> DatabaseView {
        DatabaseView {
            files: file_views(self.files@),
            manifests: manifest_views(self.manifests@),
            blocks: block_views(self.blocks@),
            chunks: chunk_views(self.chunks@),
        }
    }
}

impl Database {
    /// Whether the index is consistent: its content obeys the invariants of
    /// the index, and the identifiers in use are those it assigned.
    pub closed spec fn wf(&self) -> bool {
        &&& self@.wf()
        &&& self.next_file_id >= 1
        &&& self.next_chunk_id >= 1
        &&& forall|i: int|
            0 <= i < self.files@.len() ==> 1 <= (#[trigger] self.files@[i]).id < self.next_file_id
        &&& forall|i: int|
            0 <= i < self.chunks@.len() ==> 1 <= (#[trigger] self.chunks@[i]).id
                < self.next_chunk_id
    }

    /// The identifier that the next file gets.
    pub closed spec fn next_file_id(&self) -> int {
        self.next_file_id as int
    }

    /// The identifier that the next chunk gets.
    pub closed spec fn next_chunk_id(&self) -> int {
        self.next_chunk_id as int
    }

    /// Whether the index can assign no further file identifier.
    pub open spec fn file_ids_exhausted(&self) -> bool {
        self.next_file_id() == i64::MAX
    }

    /// Whether the index can assign no further chunk identifier.
    pub open spec fn chunk_ids_exhausted(&self) -> bool {
        self.next_chunk_id() == i64::MAX
    }

    /// The content of a consistent index obeys the invariants of the index.
    pub proof fn lemma_wf(&self)
        requires
            self.wf(),
        ensures
            self@.wf(),
    {
    }

    /// An empty index.
    pub fn in_memory() -> (r: Result<Database, Error>)
        ensures
            r is Ok,
            r.unwrap().wf(),
            r.unwrap()@.files.len() == 0,
            r.unwrap()@.blocks.len() == 0,
            r.unwrap()@.chunks.len() == 0,
            r.unwrap().next_file_id() == 1,
            r.unwrap().next_chunk_id() == 1,
    {
        Ok(
            Database {
                files: Vec::new(),
                manifests: Vec::new(),
                blocks: Vec::new(),
                chunks: Vec::new(),
                next_file_id: 1,
                next_chunk_id: 1,
            },
        )
    }

    /// The position of the file under a path.
    fn find_path(&self, path: &str) -> (r: Option<usize>)
        requires
            self.wf(),
        ensures
            match r {
                Some(i) => i < self@.files.len() && self@.files[i as int].path == path@,
                None => !self@.has_path(path@),
            },
    {
        let wanted = path.to_owned();
        let mut i: usize = 0;
        while i < self.files.len()
            invariant
                i <= self.files@.len(),
                wanted@ == path@,
                forall|j: int| 0 <= j < i ==> (#[trigger] self@.files[j]).path != path@,
            decreases self.files@.len() - i,
        {
            if self.files[i].path == wanted {
                return Some(i);
            }
            i += 1;
        }
        None
    }

    /// The position of the file under an identifier.
    fn find_file_id(&self, id: i64) -> (r: Option<usize>)
        requires
            self.wf(),
        ensures
            match r {
                Some(i) => i < self@.files.len() && self@.files[i as int].id == id,
                None => !self@.has_file_id(id),
            },
    {
        let mut i: usize = 0;
        while i < self.files.len()
            invariant
                i <= self.files@.len(),
                forall|j: int| 0 <= j < i ==> (#[trigger] self@.files[j]).id != id,
            decreases self.files@.len() - i,
        {
            if self.files[i].id == id {
                return Some(i);
            }
            i += 1;
        }
        None
    }

    /// The position of the block under a fingerprint.
    fn find_block(&self, hash: &[u8]) -> (r: Option<usize>)
        requires
            self.wf(),
        ensures
            match r {
                Some(i) => i < self@.blocks.len() && self@.blocks[i as int].hash == hash@,
                None => !self@.has_block(hash@),
            },
    {
        let mut i: usize = 0;
        while i < self.blocks.len()
            invariant
                i <= self.blocks@.len(),
                forall|j: int| 0 <= j < i ==> (#[trigger] self@.blocks[j]).hash != hash@,
            decreases self.blocks@.len() - i,
        {
            if same_bytes(self.blocks[i].hash.as_slice(), hash) {
                return Some(i);
            }
            i += 1;
        }
        None
    }

    /// Adds a file under a fresh identifier, with an empty manifest.
    ///
    /// Fails with `Index`, and changes nothing, if a file is on record
    /// under the path or no identifier is left.
    pub fn insert_file(&mut self, file: &FileRecord) -> (r: Result<i64, Error>)
        requires
            old(self).wf(),
        ensures
            final(self).wf(),
            final(self).next_chunk_id() == old(self).next_chunk_id(),
            match r {
                Ok(id) => {
                    &&& !old(self)@.has_path(file.path@)
                    &&& !old(self).file_ids_exhausted()
                    &&& !old(self)@.has_file_id(id)
                    &&& id >= 1
                    &&& id == old(self).next_file_id()
                    &&& final(self).next_file_id() == id + 1
                    &&& final(self)@ == (DatabaseView {
                        files: old(self)@.files.push(FileRecordView { id, ..file@ }),
                        manifests: old(self)@.manifests.push(Seq::empty()),
                        ..old(self)@
                    })
                },
                Err(e) => {
                    &&& e == Error::Index
                    &&& final(self)@ == old(self)@
                    &&& final(self).next_file_id() == old(self).next_file_id()
                    &&& old(self)@.has_path(file.path@) || old(self).file_ids_exhausted()
                },
            },
    {
        if self.find_path(file.path.as_str()).is_some() || self.next_file_id == i64::MAX {
            return Err(Error::Index);
        }
        let id = self.next_file_id;
        let ghost before = self@;
        self.files.push(file.with_id(id));
        self.manifests.push(Vec::new());
        self.next_file_id = id + 1;
        proof {
            assert(self@.files =~= before.files.push(FileRecordView { id, ..file@ }));
            assert(bytes_views(Seq::<Vec<u8>>::empty()) =~= Seq::<Seq<u8>>::empty());
            assert(self@.manifests =~= before.manifests.push(Seq::empty()));
            assert(self@.blocks =~= before.blocks);
            assert(self@.chunks =~= before.chunks);
            assert forall|i: int| 0 <= i < before.files.len() implies (
            #[trigger] before.files[i]).id != id by {
                assert(old(self).files@[i].id < id);
            }
            assert forall|i: int, j: int| 0 <= i < j < self@.files.len() implies (
            #[trigger] self@.files[i]).path != (#[trigger] self@.files[j]).path
                && self@.files[i].id != self@.files[j].id by {
                assert(before.files[i] == self@.files[i]);
                if j < before.files.len() {
                    assert(before.files[j] == self@.files[j]);
                }
            }
            assert forall|i: int| 0 <= i < self@.chunks.len() implies self@.has_block(
                (#[trigger] self@.chunks[i]).block_hash,
            ) by {
                assert(before.has_block(before.chunks[i].block_hash));
            }
            assert forall|i: int| 0 <= i < self.files@.len() implies 1 <= (
            #[trigger] self.files@[i]).id < self.next_file_id by {
                if i < old(self).files@.len() {
                    assert(self.files@[i] == old(self).files@[i]);
                }
            }
        }
        Ok(id)
    }

    /// The file on record under a path, if there is one.
    pub fn get_file_by_path(&self, path: &str) -> (r: Result<Option<FileRecord>, Error>)
        requires
            self.wf(),
        ensures
            r is Ok,
            match r.unwrap() {
                Some(file) => file@.path == path@ && self@.files.contains(file@),
                None => !self@.has_path(path@),
            },
    {
        match self.find_path(path) {
            Some(i) => {
                let file = self.files[i].with_id(self.files[i].id);
                assert(self@.files[i as int] == file@);
                Ok(Some(file))
            },
            None => Ok(None),
        }
    }

    /// All files, ordered by the bytes of their paths.
    pub fn list_files(&self) -> (r: Result<Vec<FileRecord>, Error>)
        requires
            self.wf(),
        ensures
            r is Ok,
            r.unwrap()@.len() == self@.files.len(),
            forall|i: int|
                0 <= i < self@.files.len() ==> file_views(r.unwrap()@).contains(
                    #[trigger] self@.files[i],
                ),
            forall|j: int|
                0 <= j < r.unwrap()@.len() ==> self@.files.contains(
                    #[trigger] file_views(r.unwrap()@)[j],
                ),
            forall|j: int|
                0 <= j < r.unwrap()@.len() - 1 ==> lex_le(
                    path_key((#[trigger] file_views(r.unwrap()@)[j]).path),
                    path_key(file_views(r.unwrap()@)[j + 1].path),
                ),
    {
        let mut out: Vec<FileRecord> = Vec::new();
        let mut i: usize = 0;
        while i < self.files.len()
            invariant
                i <= self.files@.len(),
                out@.len() == i,
                forall|t: int|
                    0 <= t < i ==> file_views(out@).contains(#[trigger] self@.files[t]),
                forall|j: int|
                    0 <= j < out@.len() ==> self@.files.contains(#[trigger] file_views(out@)[j]),
                forall|j: int|
                    0 <= j < out@.len() - 1 ==> lex_le(
                        path_key((#[trigger] file_views(out@)[j]).path),
                        path_key(file_views(out@)[j + 1].path),
                    ),
            decreases self.files@.len() - i,
        {
            let file = self.files[i].with_id(self.files[i].id);
            assert(file@ == self@.files[i as int]);
            let key = file.path.as_str().as_bytes();
            let mut pos: usize = 0;
            while pos < out.len() && lex_le_bytes(out[pos].path.as_str().as_bytes(), key)
                invariant
                    pos <= out@.len(),
                    key@ == path_key(file@.path),
                    forall|j: int|
                        0 <= j < pos ==> lex_le(
                            path_key((#[trigger] file_views(out@)[j]).path),
                            key@,
                        ),
                decreases out@.len() - pos,
            {
                pos += 1;
            }
            let ghost before = file_views(out@);
            proof {
                if pos < out@.len() {
                    lemma_lex_total(path_key(before[pos as int].path), key@);
                }
            }
            out.insert(pos, file);
            proof {
                let after = file_views(out@);
                assert(after =~= before.insert(pos as int, self@.files[i as int]));
                assert forall|t: int| 0 <= t < i + 1 implies after.contains(
                    #[trigger] self@.files[t],
                ) by {
                    if t < i {
                        let j = choose|j: int| 0 <= j < before.len() && before[j] == self@.files[t];
                        if j < pos {
                            assert(after[j] == before[j]);
                        } else {
                            assert(after[j + 1] == before[j]);
                        }
                    } else {
                        assert(after[pos as int] == self@.files[t]);
                    }
                }
                assert forall|j: int| 0 <= j < after.len() implies self@.files.contains(
                    #[trigger] after[j],
                ) by {
                    if j < pos {
                        assert(after[j] == before[j]);
                    } else if j == pos {
                        assert(self@.files[i as int] == after[j]);
                    } else {
                        assert(after[j] == before[j - 1]);
                    }
                }
                assert forall|j: int| 0 <= j < after.len() - 1 implies lex_le(
                    path_key((#[trigger] after[j]).path),
                    path_key(after[j + 1].path),
                ) by {
                    if j + 1 < pos {
                        assert(after[j] == before[j] && after[j + 1] == before[j + 1]);
                    } else if j + 1 == pos {
                        assert(after[j] == before[j]);
                    } else if j == pos {
                        assert(after[j + 1] == before[j]);
                    } else {
                        assert(after[j] == before[j - 1] && after[j + 1] == before[j]);
                    }
                }
            }
            i += 1;
        }
        Ok(out)
    }

    /// Removes the file on record under a path, with its manifest, if
    /// there is one. Blocks and chunks stay.
    pub fn delete_file(&mut self, path: &str) -> (r: Result<(), Error>)
        requires
            old(self).wf(),
        ensures
            r is Ok,
            final(self).wf(),
            !final(self)@.has_path(path@),
            final(self).next_file_id() == old(self).next_file_id(),
            final(self).next_chunk_id() == old(self).next_chunk_id(),
            final(self)@ == old(self)@.without_path(path@),
            final(self)@.blocks == old(self)@.blocks,
            final(self)@.chunks == old(self)@.chunks,
            !old(self)@.has_path(path@) ==> final(self)@ == old(self)@,
            old(self)@.has_path(path@) ==> exists|i: int|
                0 <= i < old(self)@.files.len() && (#[trigger] old(self)@.files[i]).path == path@
                    && final(self)@.files == old(self)@.files.remove(i) && final(self)@.manifests
                    == old(self)@.manifests.remove(i),
    {
        match self.find_path(path) {
            Some(i) => {
                let ghost before = self@;
                proof {
                    let j = before.path_index(path@);
                    assert(before.files[i as int].path == path@);
                    if j < i {
                        assert(before.files[j].path != before.files[i as int].path);
                    } else if i < j {
                        assert(before.files[i as int].path != before.files[j].path);
                    }
                }
                self.files.remove(i);
                self.manifests.remove(i);
                proof {
                    assert(self@.files =~= before.files.remove(i as int));
                    assert(self@.manifests =~= before.manifests.remove(i as int));
                    assert(self@.blocks =~= before.blocks);
                    assert(self@.chunks =~= before.chunks);
                    assert forall|a: int, b: int| 0 <= a < b < self@.files.len() implies (
                    #[trigger] self@.files[a]).path != (#[trigger] self@.files[b]).path
                        && self@.files[a].id != self@.files[b].id by {
                        let a0 = if a < i { a } else { a + 1 };
                        let b0 = if b < i { b } else { b + 1 };
                        assert(self@.files[a] == before.files[a0]);
                        assert(self@.files[b] == before.files[b0]);
                    }
                    assert forall|a: int| 0 <= a < self@.files.len() implies (
                    #[trigger] self@.files[a]).path != path@ by {
                        let a0 = if a < i { a } else { a + 1 };
                        assert(self@.files[a] == before.files[a0]);
                    }
                    assert forall|a: int| 0 <= a < self@.chunks.len() implies self@.has_block(
                        (#[trigger] self@.chunks[a]).block_hash,
                    ) by {
                        assert(before.has_block(before.chunks[a].block_hash));
                    }
                    assert forall|a: int| 0 <= a < self.files@.len() implies 1 <= (
                    #[trigger] self.files@[a]).id < self.next_file_id by {
                        let a0 = if a < i { a } else { a + 1 };
                        assert(self.files@[a] == old(self).files@[a0]);
                    }
                }
                Ok(())
            },
            None => Ok(()),
        }
    }

    /// Adds a block, unless a block is on record under its fingerprint:
    /// then nothing changes.
    pub fn insert_block(&mut self, block: &BlockRecord) -> (r: Result<(), Error>)
        requires
            old(self).wf(),
        ensures
            r is Ok,
            final(self).wf(),
            final(self).next_file_id() == old(self).next_file_id(),
            final(self).next_chunk_id() == old(self).next_chunk_id(),
            final(self)@.has_block(block.hash@),
            old(self)@.has_block(block.hash@) ==> final(self)@ == old(self)@,
            !old(self)@.has_block(block.hash@) ==> final(self)@ == (DatabaseView {
                blocks: old(self)@.blocks.push(block@),
                ..old(self)@
            }),
    {
        if self.find_block(block.hash.as_slice()).is_some() {
            return Ok(());
        }
        let ghost before = self@;
        self.blocks.push(block.duplicate());
        proof {
            assert(self@.blocks =~= before.blocks.push(block@));
            assert(self@.files =~= before.files);
            assert(self@.manifests =~= before.manifests);
            assert(self@.chunks =~= before.chunks);
            assert(self@.blocks[before.blocks.len() as int].hash == block.hash@);
            assert forall|i: int, j: int| 0 <= i < j < self@.blocks.len() implies (
            #[trigger] self@.blocks[i]).hash != (#[trigger] self@.blocks[j]).hash by {
                assert(before.blocks[i] == self@.blocks[i]);
                if j < before.blocks.len() {
                    assert(before.blocks[j] == self@.blocks[j]);
                }
            }
            assert forall|i: int| 0 <= i < self@.chunks.len() implies self@.has_block(
                (#[trigger] self@.chunks[i]).block_hash,
            ) by {
                let hash = before.chunks[i].block_hash;
                assert(before.has_block(hash));
                let b = choose|b: int|
                    0 <= b < before.blocks.len() && (#[trigger] before.blocks[b]).hash == hash;
                assert(self@.blocks[b] == before.blocks[b]);
            }
        }
        Ok(())
    }

    /// The block on record under a fingerprint, if there is one.
    pub fn get_block(&self, hash: &[u8]) -> (r: Result<Option<BlockRecord>, Error>)
        requires
            self.wf(),
        ensures
            r is Ok,
            match r.unwrap() {
                Some(block) => block@.hash == hash@ && self@.blocks.contains(block@),
                None => !self@.has_block(hash@),
            },
    {
        match self.find_block(hash) {
            Some(i) => {
                let block = self.blocks[i].duplicate();
                assert(self@.blocks[i as int] == block@);
                Ok(Some(block))
            },
            None => Ok(None),
        }
    }

    /// Adds a chunk under a fresh identifier.
    ///
    /// Fails with `Index`, and changes nothing, if no block is on record
    /// under the chunk's fingerprint or no identifier is left.
    pub fn insert_chunk(&mut self, chunk: &ChunkRecord) -> (r: Result<i64, Error>)
        requires
            old(self).wf(),
        ensures
            final(self).wf(),
            final(self).next_file_id() == old(self).next_file_id(),
            match r {
                Ok(id) => {
                    &&& old(self)@.has_block(chunk.block_hash@)
                    &&& !old(self).chunk_ids_exhausted()
                    &&& !old(self)@.has_chunk_id(id)
                    &&& id >= 1
                    &&& id == old(self).next_chunk_id()
                    &&& final(self).next_chunk_id() == id + 1
                    &&& final(self)@ == (DatabaseView {
                        chunks: old(self)@.chunks.push(ChunkRecordView { id, ..chunk@ }),
                        ..old(self)@
                    })
                },
                Err(e) => {
                    &&& e == Error::Index
                    &&& final(self)@ == old(self)@
                    &&& final(self).next_chunk_id() == old(self).next_chunk_id()
                    &&& !old(self)@.has_block(chunk.block_hash@) || old(self).chunk_ids_exhausted()
                },
            },
    {
        if self.find_block(chunk.block_hash.as_slice()).is_none() || self.next_chunk_id
            == i64::MAX {
            return Err(Error::Index);
        }
        let id = self.next_chunk_id;
        let ghost before = self@;
        self.chunks.push(chunk.with_id(id));
        self.next_chunk_id = id + 1;
        proof {
            assert(self@.chunks =~= before.chunks.push(ChunkRecordView { id, ..chunk@ }));
            assert(self@.files =~= before.files);
            assert(self@.manifests =~= before.manifests);
            assert(self@.blocks =~= before.blocks);
            assert forall|i: int| 0 <= i < before.chunks.len() implies (
            #[trigger] before.chunks[i]).id != id by {
                assert(old(self).chunks@[i].id < id);
            }
            assert forall|i: int, j: int| 0 <= i < j < self@.chunks.len() implies (
            #[trigger] self@.chunks[i]).id != (#[trigger] self@.chunks[j]).id by {
                assert(before.chunks[i] == self@.chunks[i]);
                if j < before.chunks.len() {
                    assert(before.chunks[j] == self@.chunks[j]);
                }
            }
            assert forall|i: int| 0 <= i < self@.chunks.len() implies self@.has_block(
                (#[trigger] self@.chunks[i]).block_hash,
            ) by {
                if i < before.chunks.len() {
                    assert(before.has_block(before.chunks[i].block_hash));
                }
            }
            assert forall|i: int| 0 <= i < self.chunks@.len() implies 1 <= (
            #[trigger] self.chunks@[i]).id < self.next_chunk_id by {
                if i < old(self).chunks@.len() {
                    assert(self.chunks@[i] == old(self).chunks@[i]);
                }
            }
        }
        Ok(id)
    }

    /// The chunks that are copies of a block, in order of insertion.
    pub fn get_chunks_for_block(&self, block_hash: &[u8]) -> (r: Result<Vec<ChunkRecord>, Error>)
        requires
            self.wf(),
        ensures
            r is Ok,
            chunk_views(r.unwrap()@) == chunks_of(self@.chunks, block_hash@),
    {
        let mut out: Vec<ChunkRecord> = Vec::new();
        let mut i: usize = 0;
        assert(self@.chunks.take(0) =~= Seq::empty());
        assert(chunk_views(out@) =~= Seq::empty());
        while i < self.chunks.len()
            invariant
                i <= self.chunks@.len(),
                chunk_views(out@) == chunks_of(self@.chunks.take(i as int), block_hash@),
            decreases self.chunks@.len() - i,
        {
            proof {
                let upto = self@.chunks.take(i + 1);
                assert(upto.drop_last() =~= self@.chunks.take(i as int));
                assert(upto.last() == self.chunks@[i as int]@);
            }
            if same_bytes(self.chunks[i].block_hash.as_slice(), block_hash) {
                let ghost before = chunk_views(out@);
                out.push(self.chunks[i].with_id(self.chunks[i].id));
                assert(chunk_views(out@) =~= before.push(self.chunks@[i as int]@));
            }
            i += 1;
        }
        assert(self@.chunks.take(i as int) =~= self@.chunks);
        Ok(out)
    }

    /// Puts a file on record under a fresh identifier, with its manifest,
    /// in place of any file on record under the same path: afterwards the
    /// files on record are those on record before without the one under the
    /// path, then the new one.
    ///
    /// Fails with `Index`, and changes nothing, exactly if no identifier is
    /// left.
    pub fn put_file(&mut self, file: &FileRecord, blocks: &Vec<Vec<u8>>) -> (r: Result<i64, Error>)
        requires
            old(self).wf(),
        ensures
            final(self).wf(),
            final(self).next_chunk_id() == old(self).next_chunk_id(),
            r is Ok <==> !old(self).file_ids_exhausted(),
            match r {
                Ok(id) => {
                    &&& id == old(self).next_file_id()
                    &&& final(self).next_file_id() == id + 1
                    &&& final(self)@ == (DatabaseView {
                        files: old(self)@.without_path(file.path@).files.push(
                            FileRecordView { id, ..file@ },
                        ),
                        manifests: old(self)@.without_path(file.path@).manifests.push(
                            bytes_views(blocks@),
                        ),
                        ..old(self)@
                    })
                },
                Err(e) => {
                    &&& e == Error::Index
                    &&& final(self)@ == old(self)@
                    &&& final(self).next_file_id() == old(self).next_file_id()
                },
            },
    {
        if self.next_file_id == i64::MAX {
            return Err(Error::Index);
        }
        let _ = self.delete_file(file.path.as_str());
        let ghost pruned = self@;
        let id = match self.insert_file(file) {
            Ok(id) => id,
            Err(e) => {
                return Err(Error::Index);
            },
        };
        let ghost inserted = self@;
        let ghost last = inserted.files.len() - 1;
        proof {
            self.lemma_wf();
            assert(inserted.files[last].id == id);
            assert(inserted.has_file_id(id));
            assert forall|i: int| 0 <= i < inserted.files.len() && (#[trigger] inserted.files[i]).id
                == id implies i == last by {
                if i < last {
                    assert(inserted.files[i].id != inserted.files[last].id);
                }
            }
        }
        match self.set_file_blocks(id, blocks) {
            Ok(_) => {
                proof {
                    self.lemma_wf();
                    let i = choose|i: int|
                        0 <= i < inserted.files.len() && (#[trigger] inserted.files[i]).id == id
                            && self@.manifests == inserted.manifests.update(
                            i,
                            bytes_views(blocks@),
                        );
                    assert(i == last);
                    assert(self@.manifests =~= pruned.manifests.push(bytes_views(blocks@)));
                }
                Ok(id)
            },
            Err(_) => Err(Error::Index),
        }
    }

    /// Records the ordered block fingerprints of a file.
    ///
    /// Fails with `FileNotFound`, and changes nothing, if no file is on
    /// record under the identifier.
    pub fn set_file_blocks(&mut self, file_id: i64, blocks: &Vec<Vec<u8>>) -> (r: Result<(), Error>)
        requires
            old(self).wf(),
        ensures
            final(self).wf(),
            final(self).next_file_id() == old(self).next_file_id(),
            final(self).next_chunk_id() == old(self).next_chunk_id(),
            final(self)@.files == old(self)@.files,
            final(self)@.blocks == old(self)@.blocks,
            final(self)@.chunks == old(self)@.chunks,
            match r {
                Ok(_) => exists|i: int|
                    0 <= i < old(self)@.files.len() && (#[trigger] old(self)@.files[i]).id
                        == file_id && final(self)@.manifests == old(self)@.manifests.update(
                        i,
                        bytes_views(blocks@),
                    ),
                Err(e) => {
                    &&& e == Error::FileNotFound
                    &&& !old(self)@.has_file_id(file_id)
                    &&& final(self)@ == old(self)@
                },
            },
    {
        match self.find_file_id(file_id) {
            Some(i) => {
                let ghost before = self@;
                self.manifests[i] = copy_list(blocks);
                proof {
                    assert(self@.manifests =~= before.manifests.update(
                        i as int,
                        bytes_views(blocks@),
                    ));
                    assert(self@.files =~= before.files);
                    assert(self@.blocks =~= before.blocks);
                    assert(self@.chunks =~= before.chunks);
                    assert forall|a: int| 0 <= a < self@.chunks.len() implies self@.has_block(
                        (#[trigger] self@.chunks[a]).block_hash,
                    ) by {
                        assert(before.has_block(before.chunks[a].block_hash));
                    }
                }
                Ok(())
            },
            None => Err(Error::FileNotFound),
        }
    }

    /// The ordered block fingerprints of a file.
    ///
    /// Fails with `FileNotFound` if no file is on record under the
    /// identifier.
    pub fn get_file_blocks(&self, file_id: i64) -> (r: Result<Vec<Vec<u8>>, Error>)
        requires
            self.wf(),
        ensures
            match r {
                Ok(blocks) => exists|i: int|
                    0 <= i < self@.files.len() && (#[trigger] self@.files[i]).id == file_id
                        && i < self@.manifests.len() && self@.manifests[i] == bytes_views(blocks@),
                Err(e) => e == Error::FileNotFound && !self@.has_file_id(file_id),
            },
    {
        match self.find_file_id(file_id) {
            Some(i) => {
                let blocks = copy_list(&self.manifests[i]);
                assert(self@.manifests[i as int] == bytes_views(blocks@));
                Ok(blocks)
            },
            None => Err(Error::FileNotFound),
        }
    }

    /// The position of the chunk under an identifier.
    fn find_chunk_id(&self, id: i64) -> (r: Option<usize>)
        requires
            self.wf(),
        ensures
            match r {
                Some(i) => i < self@.chunks.len() && self@.chunks[i as int].id == id,
                None => !self@.has_chunk_id(id),
            },
    {
        let mut i: usize = 0;
        while i < self.chunks.len()
            invariant
                i <= self.chunks@.len(),
                forall|j: int| 0 <= j < i ==> (#[trigger] self@.chunks[j]).id != id,
            decreases self.chunks@.len() - i,
        {
            if self.chunks[i].id == id {
                return Some(i);
            }
            i += 1;
        }
        None
    }

    /// Puts a file back on record under the identifier it had, with its
    /// manifest.
    ///
    /// Fails with `Index`, and changes nothing, unless the identifier is
    /// positive and below the largest, and neither it nor the path is in
    /// use.
    pub fn restore_file(&mut self, file: &FileRecord, blocks: &Vec<Vec<u8>>) -> (r: Result<
        (),
        Error,
    >)
        requires
            old(self).wf(),
        ensures
            final(self).wf(),
            final(self).next_chunk_id() == old(self).next_chunk_id(),
            final(self).next_file_id() == (if r is Ok && old(self).next_file_id() <= file.id {
                file.id + 1
            } else {
                old(self).next_file_id()
            }),
            match r {
                Ok(_) => {
                    &&& 1 <= file.id < i64::MAX
                    &&& !old(self)@.has_path(file.path@)
                    &&& !old(self)@.has_file_id(file.id)
                    &&& final(self)@ == (DatabaseView {
                        files: old(self)@.files.push(file@),
                        manifests: old(self)@.manifests.push(bytes_views(blocks@)),
                        ..old(self)@
                    })
                },
                Err(e) => {
                    &&& e == Error::Index
                    &&& final(self)@ == old(self)@
                    &&& !(1 <= file.id < i64::MAX) || old(self)@.has_path(file.path@) || old(
                        self,
                    )@.has_file_id(file.id)
                },
            },
    {
        if file.id < 1 || file.id == i64::MAX || self.find_path(file.path.as_str()).is_some()
            || self.find_file_id(file.id).is_some() {
            return Err(Error::Index);
        }
        let ghost before = self@;
        self.files.push(file.with_id(file.id));
        self.manifests.push(copy_list(blocks));
        if self.next_file_id <= file.id {
            self.next_file_id = file.id + 1;
        }
        proof {
            assert(self@.files =~= before.files.push(file@));
            assert(self@.manifests =~= before.manifests.push(bytes_views(blocks@)));
            assert(self@.blocks =~= before.blocks);
            assert(self@.chunks =~= before.chunks);
            assert forall|i: int, j: int| 0 <= i < j < self@.files.len() implies (
            #[trigger] self@.files[i]).path != (#[trigger] self@.files[j]).path
                && self@.files[i].id != self@.files[j].id by {
                assert(before.files[i] == self@.files[i]);
                if j < before.files.len() {
                    assert(before.files[j] == self@.files[j]);
                }
            }
            assert forall|i: int| 0 <= i < self@.chunks.len() implies self@.has_block(
                (#[trigger] self@.chunks[i]).block_hash,
            ) by {
                assert(before.has_block(before.chunks[i].block_hash));
            }
            assert forall|i: int| 0 <= i < self.files@.len() implies 1 <= (
            #[trigger] self.files@[i]).id < self.next_file_id by {
                if i < old(self).files@.len() {
                    assert(self.files@[i] == old(self).files@[i]);
                }
            }
        }
        Ok(())
    }

    /// Puts a chunk back on record under the identifier it had.
    ///
    /// Fails with `Index`, and changes nothing, unless the identifier is
    /// positive, below the largest and not in use, and a block is on record
    /// under the chunk's fingerprint.
    pub fn restore_chunk(&mut self, chunk: &ChunkRecord) -> (r: Result<(), Error>)
        requires
            old(self).wf(),
        ensures
            final(self).wf(),
            final(self).next_file_id() == old(self).next_file_id(),
            final(self).next_chunk_id() == (if r is Ok && old(self).next_chunk_id() <= chunk.id {
                chunk.id + 1
            } else {
                old(self).next_chunk_id()
            }),
            match r {
                Ok(_) => {
                    &&& 1 <= chunk.id < i64::MAX
                    &&& old(self)@.has_block(chunk.block_hash@)
                    &&& !old(self)@.has_chunk_id(chunk.id)
                    &&& final(self)@ == (DatabaseView {
                        chunks: old(self)@.chunks.push(chunk@),
                        ..old(self)@
                    })
                },
                Err(e) => {
                    &&& e == Error::Index
                    &&& final(self)@ == old(self)@
                    &&& !(1 <= chunk.id < i64::MAX) || !old(self)@.has_block(chunk.block_hash@)
                        || old(self)@.has_chunk_id(chunk.id)
                },
            },
    {
        if chunk.id < 1 || chunk.id == i64::MAX || self.find_block(
            chunk.block_hash.as_slice(),
        ).is_none() || self.find_chunk_id(chunk.id).is_some() {
            return Err(Error::Index);
        }
        let ghost before = self@;
        self.chunks.push(chunk.with_id(chunk.id));
        if self.next_chunk_id <= chunk.id {
            self.next_chunk_id = chunk.id + 1;
        }
        proof {
            assert(self@.chunks =~= before.chunks.push(chunk@));
            assert(self@.files =~= before.files);
            assert(self@.manifests =~= before.manifests);
            assert(self@.blocks =~= before.blocks);
            assert forall|i: int, j: int| 0 <= i < j < self@.chunks.len() implies (
            #[trigger] self@.chunks[i]).id != (#[trigger] self@.chunks[j]).id by {
                assert(before.chunks[i] == self@.chunks[i]);
                if j < before.chunks.len() {
                    assert(before.chunks[j] == self@.chunks[j]);
                }
            }
            assert forall|i: int| 0 <= i < self@.chunks.len() implies self@.has_block(
                (#[trigger] self@.chunks[i]).block_hash,
            ) by {
                if i < before.chunks.len() {
                    assert(before.has_block(before.chunks[i].block_hash));
                }
            }
            assert forall|i: int| 0 <= i < self.chunks@.len() implies 1 <= (
            #[trigger] self.chunks@[i]).id < self.next_chunk_id by {
                if i < old(self).chunks@.len() {
                    assert(self.chunks@[i] == old(self).chunks@[i]);
                }
            }
        }
        Ok(())
    }

    /// Whether a file other than the given one has the block in its
    /// manifest.
    pub fn is_block_shared(&self, hash: &[u8], file_id: i64) -> (shared: bool)
        requires
            self.wf(),
        ensures
            shared == self@.shares_block(hash@, file_id),
    {
        let mut i: usize = 0;
        while i < self.files.len()
            invariant
                self.wf(),
                i <= self.files@.len(),
                forall|f: int, b: int|
                    0 <= f < i && 0 <= b < self@.manifests[f].len() ==> !(self@.files[f].id
                        != file_id && #[trigger] self@.manifests[f][b] == hash@),
            decreases self.files@.len() - i,
        {
            if self.files[i].id != file_id && lists(&self.manifests[i], hash) {
                proof {
                    let b = choose|b: int|
                        0 <= b < self@.manifests[i as int].len() && self@.manifests[i as int][b]
                            == hash@;
                    assert(self@.files[i as int].id != file_id && self@.manifests[i as int][b]
                        == hash@);
                }
                return true;
            }
            i += 1;
        }
        false
    }

    /// All blocks, in order of insertion.
    pub fn list_blocks(&self) -> (r: Vec<BlockRecord>)
        requires
            self.wf(),
        ensures
            block_views(r@) == self@.blocks,
    {
        let mut out: Vec<BlockRecord> = Vec::new();
        let mut i: usize = 0;
        while i < self.blocks.len()
            invariant
                i <= self.blocks@.len(),
                out@.len() == i,
                forall|j: int| 0 <= j < i ==> (#[trigger] out@[j])@ == self.blocks@[j]@,
            decreases self.blocks@.len() - i,
        {
            out.push(self.blocks[i].duplicate());
            i += 1;
        }
        assert(block_views(out@) =~= self@.blocks);
        out
    }

    /// All chunks, in order of insertion.
    pub fn list_chunks(&self) -> (r: Vec<ChunkRecord>)
        requires
            self.wf(),
        ensures
            chunk_views(r@) == self@.chunks,
    {
        let mut out: Vec<ChunkRecord> = Vec::new();
        let mut i: usize = 0;
        while i < self.chunks.len()
            invariant
                i <= self.chunks@.len(),
                out@.len() == i,
                forall|j: int| 0 <= j < i ==> (#[trigger] out@[j])@ == self.chunks@[j]@,
            decreases self.chunks@.len() - i,
        {
            out.push(self.chunks[i].with_id(self.chunks[i].id));
            i += 1;
        }
        assert(chunk_views(out@) =~= self@.chunks);
        out
    }
}

} // verus!
