use std::cell::RefCell;

use isg::block::Block;
use isg::discord::{Attachment, DiscordBackend, WebhookResponse};
use isg::local::LocalBackend;
use isg::storage::{
    present_from, verify_from, BackendType, Location, StorageBackend, StorageManager,
    StorageMetadata, StorageStats, StorageTier,
};
use isg::Error;

struct Named {
    name: String,
    stored: RefCell<Vec<Vec<u8>>>,
}

impl Named {
    fn new(name: &str) -> Named {
        Named { name: name.to_string(), stored: RefCell::new(Vec::new()) }
    }
}

impl StorageBackend for Named {
    fn name(&self) -> String {
        self.name.clone()
    }

    fn tier(&self) -> StorageTier {
        StorageTier::Cold
    }

    fn upload(&self, block: &Block) -> Result<Location, Error> {
        self.stored.borrow_mut().push(block.data().to_vec());
        let identifier = format!("{}", self.stored.borrow().len() - 1);
        Ok(Location { platform: self.name.clone(), identifier, metadata: StorageMetadata::at(1) })
    }

    fn download(&self, location: &Location) -> Result<Vec<u8>, Error> {
        let index: usize = location.identifier.parse().map_err(|_| Error::StorageNotFound)?;
        self.stored.borrow().get(index).cloned().ok_or(Error::StorageNotFound)
    }

    fn delete(&self, _location: &Location) -> Result<(), Error> {
        Ok(())
    }

    fn list(&self) -> Result<Vec<Location>, Error> {
        Ok(Vec::new())
    }
}

fn at(platform: &str, identifier: &str) -> Location {
    Location {
        platform: platform.to_string(),
        identifier: identifier.to_string(),
        metadata: StorageMetadata::at(1),
    }
}

#[test]
fn dispatcher_routes_by_platform_name() {
    let mut manager = StorageManager::new();
    assert_eq!(manager.backend_count(), 0);
    manager.add_backend(Named::new("one"));
    manager.add_backend(Named::new("two"));
    manager.add_backend(Named::new("one"));
    assert_eq!(manager.backend_count(), 3);
    assert_eq!(manager.route(&"one".to_string()), Some(0));
    assert_eq!(manager.route(&"two".to_string()), Some(1));
    assert_eq!(manager.route(&"three".to_string()), None);
    assert_eq!(manager.route(&"One".to_string()), None);

    let block = Block::from_data(b"routed".to_vec());
    let location = manager.upload_to_backend(1, &block).unwrap();
    assert_eq!(location.platform, "two");
    assert_eq!(manager.download_from_location(&location).unwrap(), b"routed".to_vec());
    assert_eq!(
        manager.download_from_location(&at("one", "0")).unwrap_err(),
        Error::StorageNotFound
    );
    let later = manager.upload_to_backend(2, &block).unwrap();
    assert_eq!(later.platform, "one");
    assert_eq!(manager.download_from_location(&later).unwrap_err(), Error::StorageNotFound);
    assert_eq!(
        manager.download_from_location(&at("three", "0")).unwrap_err(),
        Error::StorageRouteMissing
    );
    assert_eq!(manager.upload_to_backend(3, &block).unwrap_err(), Error::StorageRouteMissing);
    assert!(manager.delete_at_location(&location).is_ok());
    assert_eq!(manager.delete_at_location(&at("none", "0")).unwrap_err(), Error::StorageRouteMissing);
}

#[test]
fn backends_have_default_checks() {
    let backend = Named::new("checks");
    let block = Block::from_data(b"checked".to_vec());
    let location = backend.upload(&block).unwrap();
    assert_eq!(backend.download(&location).unwrap(), block.data);
    assert_eq!(backend.is_present(&location), Ok(true));
    assert_eq!(backend.is_present(&at("checks", "7")), Ok(false));
    assert_eq!(backend.verify(&location, block.hash()), Ok(true));
    assert_eq!(backend.verify(&location, &isg::hash::Hash::from_data(b"other")), Ok(false));
    assert_eq!(backend.verify(&at("checks", "7"), block.hash()), Err(Error::StorageNotFound));
    let stats = backend.stats().unwrap();
    assert_eq!((stats.total_blocks, stats.total_bytes, stats.available_bytes), (0, 0, None));
    let again = backend.upload(&block).unwrap();
    assert_ne!(again, location);
    assert_eq!(backend.download(&again).unwrap(), backend.download(&location).unwrap());
}

#[test]
fn downloads_decide_presence_and_integrity() {
    assert!(present_from(&Ok(vec![1])));
    assert!(!present_from(&Err(Error::StorageNetwork)));
    let hash = isg::hash::Hash::from_data(b"x");
    assert_eq!(verify_from(Ok(b"x".to_vec()), &hash), Ok(true));
    assert_eq!(verify_from(Ok(b"y".to_vec()), &hash), Ok(false));
    assert_eq!(verify_from(Err(Error::StorageLimit), &hash), Err(Error::StorageLimit));
    let stats = StorageStats::default();
    assert_eq!(stats.total_blocks, 0);
    assert!(stats.extra.is_empty());
    let metadata = StorageMetadata::default();
    assert_eq!(metadata.stored_size, 0);
    assert!(metadata.url.is_none());
}

#[test]
fn backend_types_have_names() {
    assert_eq!(BackendType::Local.as_str(), "local");
    assert_eq!(BackendType::YouTube.as_str(), "youtube");
    assert_eq!(BackendType::Discord.as_str(), "discord");
    assert_eq!(BackendType::Telegram.as_str(), "telegram");
    assert_eq!(BackendType::R2.as_str(), "r2");
    assert_eq!(BackendType::IPFS.as_str(), "ipfs");
}

#[test]
fn local_paths_fan_out_by_identifier() {
    let backend = LocalBackend::new("root".to_string());
    assert_eq!(backend.name(), "local");
    assert_eq!(backend.tier(), StorageTier::Hot);
    assert_eq!(backend.get_file_path("abcdef"), vec!["root", "ab", "cd", "abcdef"]);
    assert_eq!(backend.get_file_path("abcd"), vec!["root", "ab", "cd", "abcd"]);
    assert_eq!(backend.get_file_path("abc"), vec!["root", "ab", "c", "abc"]);
    assert_eq!(backend.get_file_path("ab"), vec!["root", "ab", "", "ab"]);
    assert_eq!(backend.get_file_path("a"), vec!["root", "a", "", "a"]);
    assert_eq!(backend.get_file_path(""), vec!["root", "", "", ""]);
    assert_eq!(
        backend.get_file_path("\u{e9}\u{e8}\u{ea}\u{eb}x"),
        vec!["root", "\u{e9}\u{e8}", "\u{ea}\u{eb}", "\u{e9}\u{e8}\u{ea}\u{eb}x"]
    );
}

#[test]
fn local_blocks_get_fresh_places() {
    let backend = LocalBackend::new("/var/isg".to_string());
    let (first, path) = backend.allocate(42);
    let (second, _) = backend.allocate(42);
    assert_ne!(first.identifier, second.identifier);
    assert_eq!(first.platform, "local");
    assert_eq!(first.metadata.uploaded_at, 42);
    assert_eq!(first.identifier.len(), 36);
    assert!(uuid::Uuid::parse_str(&first.identifier).is_ok());
    assert_eq!(path, backend.get_file_path(&first.identifier));
    assert_eq!(path[1], first.identifier[0..2]);
    assert_eq!(path[2], first.identifier[2..4]);
    let known = LocalBackend::location_of("id".to_string(), 3);
    assert_eq!(known, Location {
        platform: "local".to_string(),
        identifier: "id".to_string(),
        metadata: StorageMetadata::at(3),
    });
}

#[test]
fn test_discord_backend_creation() {
    let backend = DiscordBackend::new("https://discord.com/api/webhooks/123/abc".to_string());

    assert_eq!(backend.name(), "discord");
    assert_eq!(backend.tier(), StorageTier::Warm);
}

#[test]
fn attachment_uploads_respect_the_ceiling() {
    let backend = DiscordBackend::new("hook".to_string());
    assert_eq!(backend.max_file_size, 25 * 1024 * 1024);
    assert_eq!(backend.timeout_seconds(), 300);
    assert_eq!(backend.webhook_url, "hook");
    let small = backend.with_max_size(3);
    assert_eq!(small.check_size(&Block::from_data(vec![0; 3])), Ok(()));
    assert_eq!(small.check_size(&Block::from_data(vec![0; 4])), Err(Error::StorageLimit));
    assert_eq!(small.check_size(&Block::from_data(Vec::new())), Ok(()));
    assert!(small.delete(&at("discord", "u")).is_ok());
    assert_eq!(small.list().unwrap_err(), Error::StorageUnsupported);
}

#[test]
fn attachments_are_named_after_fingerprints() {
    let block = Block::from_data(b"abc".to_vec());
    let name = DiscordBackend::upload_filename(&block);
    assert_eq!(name, "ba7816bf8f01cfea414140de5dae2223b00361a396177a9cb410ff61f20015ad.bin");
    assert_eq!(DiscordBackend::upload_content("f.bin"), "ISG Block: f.bin");
}

#[test]
fn locations_come_from_the_first_attachment() {
    let attachment = |n: &str, size: usize| Attachment {
        id: format!("a{}", n),
        filename: format!("f{}", n),
        size,
        url: format!("https://cdn/{}", n),
        proxy_url: format!("https://proxy/{}", n),
    };
    let response = WebhookResponse {
        id: "m1".to_string(),
        attachments: vec![attachment("1", 10), attachment("2", 20)],
    };
    let location = DiscordBackend::location_from_response(&response, 77).unwrap();
    assert_eq!(location.platform, "discord");
    assert_eq!(location.identifier, "https://cdn/1");
    assert_eq!(location.metadata.url.as_deref(), Some("https://cdn/1"));
    assert_eq!(location.metadata.stored_size, 10);
    assert_eq!(location.metadata.uploaded_at, 77);
    assert_eq!(
        location.metadata.extra,
        vec![
            ("message_id".to_string(), "m1".to_string()),
            ("attachment_id".to_string(), "a1".to_string()),
            ("proxy_url".to_string(), "https://proxy/1".to_string()),
        ]
    );
    let bare = WebhookResponse { id: "m2".to_string(), attachments: Vec::new() };
    assert_eq!(
        DiscordBackend::location_from_response(&bare, 0).unwrap_err(),
        Error::StorageNetwork
    );
}
