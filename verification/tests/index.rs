use isg::db::{BlockRecord, ChunkRecord, Database, FileRecord};
use isg::Error;

fn file(path: &str, size: i64) -> FileRecord {
    FileRecord {
        id: 0,
        path: path.to_string(),
        root_hash: vec![1, 2, 3, 4],
        size,
        created_at: 1234567890,
        modified_at: 1234567890,
        accessed_at: 1234567890,
        salt: Vec::new(),
    }
}

fn block(hash: &[u8]) -> BlockRecord {
    BlockRecord {
        hash: hash.to_vec(),
        size: 256,
        encoding_strategy: "pixel".to_string(),
        created_at: 1234567890,
    }
}

fn chunk(hash: &[u8], location: &str) -> ChunkRecord {
    ChunkRecord {
        id: 0,
        block_hash: hash.to_vec(),
        platform: "local".to_string(),
        location: location.to_string(),
        is_parity: false,
        uploaded_at: 5,
    }
}

#[test]
fn test_database_operations() {
    let mut db = Database::in_memory().unwrap();

    // Insert a file
    let file = FileRecord {
        id: 0,
        path: "/test/file.txt".to_string(),
        root_hash: vec![1, 2, 3, 4],
        size: 1024,
        created_at: 1234567890,
        modified_at: 1234567890,
        accessed_at: 1234567890,
        salt: Vec::new(),
    };

    let file_id = db.insert_file(&file).unwrap();
    assert!(file_id > 0);

    // Retrieve the file
    let retrieved = db.get_file_by_path("/test/file.txt").unwrap();
    assert!(retrieved.is_some());
    let retrieved = retrieved.unwrap();
    assert_eq!(retrieved.path, "/test/file.txt");

    // Insert a block
    let block = BlockRecord {
        hash: vec![5, 6, 7, 8],
        size: 256,
        encoding_strategy: "pixel".to_string(),
        created_at: 1234567890,
    };

    db.insert_block(&block).unwrap();

    // Retrieve the block
    let retrieved_block = db.get_block(&[5, 6, 7, 8]).unwrap();
    assert!(retrieved_block.is_some());
}

#[test]
fn duplicate_block_insert() {
    let mut db = Database::in_memory().unwrap();
    let record = block(&[1, 2, 3]);
    db.insert_block(&record).unwrap();
    db.insert_block(&record).unwrap();
    assert_eq!(db.list_blocks().len(), 1);
    let mut other = block(&[1, 2, 3]);
    other.size = 999;
    other.encoding_strategy = "none".to_string();
    db.insert_block(&other).unwrap();
    assert_eq!(db.list_blocks().len(), 1);
    let kept = db.get_block(&[1, 2, 3]).unwrap().unwrap();
    assert_eq!(kept.size, 256);
    assert_eq!(kept.encoding_strategy, "pixel");
    db.insert_block(&block(&[1, 2])).unwrap();
    assert_eq!(db.list_blocks().len(), 2);
    assert!(db.get_block(&[9]).unwrap().is_none());
}

#[test]
fn files_get_fresh_identifiers_and_keep_their_content() {
    let mut db = Database::in_memory().unwrap();
    let first = db.insert_file(&file("a", 1)).unwrap();
    let second = db.insert_file(&file("b", 2)).unwrap();
    assert_eq!(first, 1);
    assert_eq!(second, 2);
    let found = db.get_file_by_path("b").unwrap().unwrap();
    assert_eq!(found.id, 2);
    assert_eq!(found.size, 2);
    assert_eq!(found.root_hash, vec![1, 2, 3, 4]);
    assert_eq!(found.created_at, 1234567890);
    assert!(db.get_file_by_path("c").unwrap().is_none());
    assert!(db.get_file_by_path("B").unwrap().is_none());
}

#[test]
fn file_paths_are_unique() {
    let mut db = Database::in_memory().unwrap();
    db.insert_file(&file("same", 1)).unwrap();
    assert_eq!(db.insert_file(&file("same", 2)).unwrap_err(), Error::Index);
    assert_eq!(db.list_files().unwrap().len(), 1);
    assert_eq!(db.get_file_by_path("same").unwrap().unwrap().size, 1);
}

#[test]
fn files_are_listed_by_path() {
    let mut db = Database::in_memory().unwrap();
    assert!(db.list_files().unwrap().is_empty());
    for path in ["m", "b", "z", "a/b", "a", "B", "\u{e9}", "ab"] {
        db.insert_file(&file(path, 0)).unwrap();
    }
    let listed: Vec<String> = db.list_files().unwrap().into_iter().map(|f| f.path).collect();
    assert_eq!(listed, vec!["B", "a", "a/b", "ab", "b", "m", "z", "\u{e9}"]);
}

#[test]
fn deleting_a_file_removes_it_and_nothing_else() {
    let mut db = Database::in_memory().unwrap();
    let a = db.insert_file(&file("a", 1)).unwrap();
    let b = db.insert_file(&file("b", 2)).unwrap();
    db.set_file_blocks(a, &vec![vec![1]]).unwrap();
    db.set_file_blocks(b, &vec![vec![2], vec![3]]).unwrap();
    db.insert_block(&block(&[1])).unwrap();
    db.insert_chunk(&chunk(&[1], "x")).unwrap();
    db.delete_file("a").unwrap();
    assert!(db.get_file_by_path("a").unwrap().is_none());
    assert_eq!(db.get_file_blocks(a).unwrap_err(), Error::FileNotFound);
    assert_eq!(db.get_file_blocks(b).unwrap(), vec![vec![2], vec![3]]);
    assert_eq!(db.list_blocks().len(), 1);
    assert_eq!(db.list_chunks().len(), 1);
    db.delete_file("a").unwrap();
    db.delete_file("never there").unwrap();
    assert_eq!(db.list_files().unwrap().len(), 1);
    let again = db.insert_file(&file("a", 3)).unwrap();
    assert_eq!(again, 3);
}

#[test]
fn chunks_need_their_block() {
    let mut db = Database::in_memory().unwrap();
    assert_eq!(db.insert_chunk(&chunk(&[1], "x")).unwrap_err(), Error::Index);
    assert!(db.list_chunks().is_empty());
    db.insert_block(&block(&[1])).unwrap();
    assert_eq!(db.insert_chunk(&chunk(&[1], "x")).unwrap(), 1);
    assert_eq!(db.insert_chunk(&chunk(&[2], "y")).unwrap_err(), Error::Index);
}

#[test]
fn chunks_are_found_by_block_in_order() {
    let mut db = Database::in_memory().unwrap();
    db.insert_block(&block(&[1])).unwrap();
    db.insert_block(&block(&[2])).unwrap();
    db.insert_chunk(&chunk(&[1], "first")).unwrap();
    db.insert_chunk(&chunk(&[2], "other")).unwrap();
    db.insert_chunk(&chunk(&[1], "second")).unwrap();
    let found = db.get_chunks_for_block(&[1]).unwrap();
    assert_eq!(found.len(), 2);
    assert_eq!((found[0].id, found[0].location.as_str()), (1, "first"));
    assert_eq!((found[1].id, found[1].location.as_str()), (3, "second"));
    assert_eq!(found[0].platform, "local");
    assert_eq!(found[0].uploaded_at, 5);
    assert!(!found[0].is_parity);
    assert_eq!(db.get_chunks_for_block(&[2]).unwrap().len(), 1);
    assert!(db.get_chunks_for_block(&[3]).unwrap().is_empty());
    assert_eq!(db.list_chunks().len(), 3);
}

#[test]
fn manifests_belong_to_files() {
    let mut db = Database::in_memory().unwrap();
    let id = db.insert_file(&file("a", 1)).unwrap();
    assert_eq!(db.get_file_blocks(id).unwrap(), Vec::<Vec<u8>>::new());
    db.set_file_blocks(id, &vec![vec![3], vec![1], vec![3]]).unwrap();
    assert_eq!(db.get_file_blocks(id).unwrap(), vec![vec![3], vec![1], vec![3]]);
    assert_eq!(db.set_file_blocks(id + 1, &vec![]).unwrap_err(), Error::FileNotFound);
    assert_eq!(db.get_file_blocks(0).unwrap_err(), Error::FileNotFound);
}

#[test]
fn putting_a_file_replaces_the_one_under_its_path() {
    let mut db = Database::in_memory().unwrap();
    let first = db.put_file(&file("a", 1), &vec![vec![1]]).unwrap();
    let other = db.put_file(&file("b", 2), &vec![vec![2]]).unwrap();
    let second = db.put_file(&file("a", 3), &vec![vec![3], vec![4]]).unwrap();
    assert_eq!((first, other, second), (1, 2, 3));
    let files = db.list_files().unwrap();
    assert_eq!(files.len(), 2);
    assert_eq!((files[0].path.as_str(), files[0].size, files[0].id), ("a", 3, 3));
    assert_eq!((files[1].path.as_str(), files[1].size, files[1].id), ("b", 2, 2));
    assert_eq!(db.get_file_blocks(3).unwrap(), vec![vec![3], vec![4]]);
    assert_eq!(db.get_file_blocks(1).unwrap_err(), Error::FileNotFound);
}

#[test]
fn an_index_can_be_rebuilt_from_its_records() {
    let mut db = Database::in_memory().unwrap();
    db.insert_block(&block(&[1])).unwrap();
    let mut seventh = file("a", 1);
    seventh.id = 7;
    db.restore_file(&seventh, &vec![vec![1]]).unwrap();
    assert_eq!(db.get_file_by_path("a").unwrap().unwrap().id, 7);
    assert_eq!(db.get_file_blocks(7).unwrap(), vec![vec![1]]);
    let mut clash = file("b", 2);
    clash.id = 7;
    assert_eq!(db.restore_file(&clash, &vec![]).unwrap_err(), Error::Index);
    let mut twin = file("a", 2);
    twin.id = 8;
    assert_eq!(db.restore_file(&twin, &vec![]).unwrap_err(), Error::Index);
    assert_eq!(db.restore_file(&file("c", 2), &vec![]).unwrap_err(), Error::Index);
    let mut largest = file("d", 2);
    largest.id = i64::MAX;
    assert_eq!(db.restore_file(&largest, &vec![]).unwrap_err(), Error::Index);
    let mut third = file("e", 2);
    third.id = 3;
    db.restore_file(&third, &vec![]).unwrap();
    assert_eq!(db.insert_file(&file("next", 0)).unwrap(), 8);

    let mut fifth = chunk(&[1], "x");
    fifth.id = 5;
    db.restore_chunk(&fifth).unwrap();
    assert_eq!(db.restore_chunk(&fifth).unwrap_err(), Error::Index);
    let mut orphan = chunk(&[2], "y");
    orphan.id = 6;
    assert_eq!(db.restore_chunk(&orphan).unwrap_err(), Error::Index);
    assert_eq!(db.restore_chunk(&chunk(&[1], "z")).unwrap_err(), Error::Index);
    assert_eq!(db.insert_chunk(&chunk(&[1], "z")).unwrap(), 6);
    assert_eq!(db.list_chunks().len(), 2);
}

#[test]
fn blocks_are_shared_between_files() {
    let mut db = Database::in_memory().unwrap();
    let a = db.put_file(&file("a", 1), &vec![vec![1], vec![2]]).unwrap();
    let b = db.put_file(&file("b", 1), &vec![vec![2], vec![3]]).unwrap();
    assert!(!db.is_block_shared(&[1], a));
    assert!(db.is_block_shared(&[1], b));
    assert!(db.is_block_shared(&[2], a));
    assert!(db.is_block_shared(&[2], b));
    assert!(!db.is_block_shared(&[3], b));
    assert!(!db.is_block_shared(&[4], a));
    assert!(isg::db::lists(&vec![vec![1], vec![2]], &[2]));
    assert!(!isg::db::lists(&vec![vec![1], vec![2]], &[3]));
    assert_eq!(isg::db::copy_list(&vec![vec![1], vec![]]), vec![vec![1], vec![]]);
}
