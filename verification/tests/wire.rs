use isg::encoding::{saturate, EncodingStrategy};
use isg::storage::{Location, StorageMetadata};
use serde_json::{Number, Value};

fn location_to_json(location: &Location) -> Value {
    let mut extra = serde_json::Map::new();
    for (key, value) in &location.metadata.extra {
        extra.insert(key.clone(), Value::String(value.clone()));
    }
    let mut metadata = serde_json::Map::new();
    metadata.insert("uploaded_at".to_string(), Value::Number(Number::from(location.metadata.uploaded_at)));
    metadata.insert(
        "url".to_string(),
        match &location.metadata.url {
            Some(url) => Value::String(url.clone()),
            None => Value::Null,
        },
    );
    metadata.insert(
        "stored_size".to_string(),
        Value::Number(Number::from(location.metadata.stored_size as u64)),
    );
    metadata.insert("extra".to_string(), Value::Object(extra));
    let mut object = serde_json::Map::new();
    object.insert("platform".to_string(), Value::String(location.platform.clone()));
    object.insert("identifier".to_string(), Value::String(location.identifier.clone()));
    object.insert("metadata".to_string(), Value::Object(metadata));
    Value::Object(object)
}

fn location_from_json(value: &Value) -> Location {
    let metadata = &value["metadata"];
    Location {
        platform: value["platform"].as_str().unwrap().to_string(),
        identifier: value["identifier"].as_str().unwrap().to_string(),
        metadata: StorageMetadata {
            uploaded_at: metadata["uploaded_at"].as_i64().unwrap(),
            url: metadata["url"].as_str().map(|url| url.to_string()),
            stored_size: metadata["stored_size"].as_u64().unwrap() as usize,
            extra: metadata["extra"]
                .as_object()
                .unwrap()
                .iter()
                .map(|(key, value)| (key.clone(), value.as_str().unwrap().to_string()))
                .collect(),
        },
    }
}

fn strategy_to_json(strategy: &EncodingStrategy) -> Value {
    let mut object = serde_json::Map::new();
    match strategy {
        EncodingStrategy::PixelEncoding { block_size, fps, resolution } => {
            object.insert("type".to_string(), Value::String("PixelEncoding".to_string()));
            object.insert("block_size".to_string(), Value::Number(Number::from(*block_size)));
            object.insert("fps".to_string(), Value::Number(Number::from(*fps)));
            object.insert(
                "resolution".to_string(),
                Value::Array(vec![
                    Value::Number(Number::from(resolution.0)),
                    Value::Number(Number::from(resolution.1)),
                ]),
            );
        }
        _ => {
            object.insert("type".to_string(), Value::String("Other".to_string()));
        }
    }
    Value::Object(object)
}

fn strategy_from_json(value: &Value) -> EncodingStrategy {
    match value["type"].as_str().unwrap() {
        "PixelEncoding" => EncodingStrategy::PixelEncoding {
            block_size: value["block_size"].as_u64().unwrap() as u32,
            fps: value["fps"].as_u64().unwrap() as u32,
            resolution: (
                value["resolution"][0].as_u64().unwrap() as u32,
                value["resolution"][1].as_u64().unwrap() as u32,
            ),
        },
        _ => EncodingStrategy::DNAEncoding,
    }
}

#[test]
fn test_location_serialization() {
    let location = Location {
        platform: "youtube".to_string(),
        identifier: "abc123".to_string(),
        metadata: StorageMetadata::default(),
    };

    let json = serde_json::to_string(&location_to_json(&location)).unwrap();
    let deserialized: Location = location_from_json(&serde_json::from_str(&json).unwrap());

    assert_eq!(location, deserialized);
}

#[test]
fn test_encoding_strategy_serialization() {
    let strategy = EncodingStrategy::PixelEncoding {
        block_size: 4,
        fps: 30,
        resolution: (1920, 1080),
    };

    let json = serde_json::to_string(&strategy_to_json(&strategy)).unwrap();
    let deserialized: EncodingStrategy = strategy_from_json(&serde_json::from_str(&json).unwrap());

    match deserialized {
        EncodingStrategy::PixelEncoding { block_size, fps, resolution } => {
            assert_eq!(block_size, 4);
            assert_eq!(fps, 30);
            assert_eq!(resolution, (1920, 1080));
        }
        _ => panic!("Wrong variant"),
    }
}

#[test]
fn wide_numbers_saturate() {
    assert_eq!(saturate(0), 0);
    assert_eq!(saturate(12345), 12345);
    assert_eq!(saturate(usize::MAX as u128), usize::MAX);
    assert_eq!(saturate(usize::MAX as u128 + 1), usize::MAX);
    assert_eq!(saturate(u128::MAX), usize::MAX);
}

#[test]
fn byte_strings_compare_lexicographically() {
    let le = isg::bits::lex_le_bytes;
    assert!(le(b"", b""));
    assert!(le(b"", b"a"));
    assert!(!le(b"a", b""));
    assert!(le(b"a", b"a"));
    assert!(le(b"a", b"ab"));
    assert!(!le(b"ab", b"a"));
    assert!(le(b"ab", b"b"));
    assert!(!le(b"b", b"ab"));
    assert!(le(&[0x7f], &[0x80]));
    assert!(!le(&[0xff], &[0x00, 0xff]));
    assert!(isg::bits::same_bytes(b"abc", b"abc"));
    assert!(!isg::bits::same_bytes(b"abc", b"abd"));
    assert!(!isg::bits::same_bytes(b"abc", b"ab"));
    assert!(isg::bits::same_bytes(b"", b""));
    assert_eq!(isg::bits::copy_bytes(b"copy"), b"copy".to_vec());
}
