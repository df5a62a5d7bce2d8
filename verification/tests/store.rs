use std::path::PathBuf;

use flow_node::block::Block;
use flow_node::content_id::ContentId;
use flow_node::error::{BlockStoreError, ContentProviderError};
use flow_node::store::{
    counters_after_delete, counters_after_put, decode_counter, encode_counter, parse_setting, stats_of,
    BlockStoreConfig, KvConfig, KvError, KvStore, PutAction, PutEvent, StorageConfig,
};

#[test]
fn block_store_config_defaults() {
    let c = BlockStoreConfig::default();
    assert_eq!(c.db_path, PathBuf::from("/tmp/flow/blocks"));
    assert_eq!(c.max_block_size, 1024 * 1024);
    assert_eq!(c.max_total_size_bytes, 10 * 1024 * 1024 * 1024);
    assert!(c.enable_compression);
    assert_eq!(c.max_open_files, 512);
}

#[test]
fn block_store_config_from_values() {
    let c = BlockStoreConfig::from_values(PathBuf::from("/data"), Some(10), None, Some(false), Some(7));
    assert_eq!(c.db_path, PathBuf::from("/data"));
    assert_eq!(c.max_block_size, 10);
    assert_eq!(c.max_total_size_bytes, 10 * 1024 * 1024 * 1024);
    assert!(!c.enable_compression);
    assert_eq!(c.max_open_files, 7);
}

#[test]
fn block_size_and_capacity_checks() {
    let mut c = BlockStoreConfig::default();
    c.max_block_size = 100;
    c.max_total_size_bytes = 1000;
    assert!(c.check_block_size(100).is_ok());
    assert!(matches!(c.check_block_size(101), Err(BlockStoreError::BlockTooLarge { size: 101, max: 100 })));
    assert!(c.check_capacity(900, 100).is_ok());
    match c.check_capacity(901, 100) {
        Err(BlockStoreError::Storage(m)) => assert_eq!(m, "Block store capacity exceeded"),
        _ => panic!("expected a capacity error"),
    }
    c.max_total_size_bytes = 0;
    assert!(c.check_capacity(u64::MAX - 5, 5).is_ok());
}

#[test]
fn counters_round_trip() {
    for n in [0u64, 1, 255, 256, 0x0102_0304_0506_0708, u64::MAX] {
        let bytes = encode_counter(n);
        assert_eq!(bytes, n.to_le_bytes().to_vec());
        assert_eq!(decode_counter(Some(&bytes)), n);
    }
    assert_eq!(decode_counter(None), 0);
    assert_eq!(decode_counter(Some(&[1, 2, 3])), 0);
}

#[test]
fn counters_move_with_puts_and_deletes() {
    assert_eq!(counters_after_put(2, 100, 50), (3, 150));
    assert_eq!(counters_after_delete(3, 150, 50), (2, 100));
    assert_eq!(counters_after_delete(0, 10, 50), (0, 0));
    let stats = stats_of(&BlockStoreConfig::default(), 4, 40);
    assert_eq!(stats.block_count, 4);
    assert_eq!(stats.total_size_bytes, 40);
    assert_eq!(stats.max_block_size, 1024 * 1024);
}

#[test]
fn storage_config_defaults_and_values() {
    let c = StorageConfig::with_path(PathBuf::from("/kad"));
    assert_eq!(c.max_records, 65536);
    assert_eq!(c.max_providers_per_key, 20);
    assert_eq!(c.max_value_bytes, 65536);
    assert!(c.enable_compression);
    let c = StorageConfig::from_values(PathBuf::from("/kad"), Some(1), Some(2), None, Some(false));
    assert_eq!((c.max_records, c.max_providers_per_key, c.max_value_bytes, c.enable_compression), (1, 2, 65536, false));
}

#[test]
fn kv_config_defaults_and_values() {
    let c = KvConfig::default();
    assert_eq!(c.path, PathBuf::from("/tmp/flow-kv"));
    assert!(c.enable_compression);
    assert_eq!(c.max_open_files, 1000);
    assert_eq!(c.write_buffer_size, 64 * 1024 * 1024);
    let c = KvConfig::from_values(PathBuf::from("/kv"), Some("No"), Some(3), None);
    assert!(c.enable_compression);
    assert_eq!(c.max_open_files, 3);
    assert_eq!(c.write_buffer_size, 64 * 1024 * 1024);
}

#[test]
fn boolean_settings() {
    for v in ["true", "TRUE", "1", "yes", "On"] {
        assert!(parse_setting(Some(v), false), "{}", v);
    }
    for v in ["false", "0", "no", "off", "maybe", "garbage"] {
        assert!(parse_setting(Some(v), true), "{}", v);
        assert!(!parse_setting(Some(v), false), "{}", v);
    }
    assert!(parse_setting(None, true));
    assert!(!parse_setting(None, false));
}

struct Fixed(usize);

impl KvStore for Fixed {
    fn get(&self, _key: &[u8]) -> Result<Option<Vec<u8>>, KvError> {
        Ok(None)
    }
    fn put(&self, _key: &[u8], _value: &[u8]) -> Result<(), KvError> {
        Ok(())
    }
    fn delete(&self, _key: &[u8]) -> Result<(), KvError> {
        Ok(())
    }
    fn has_key(&self, _key: &[u8]) -> Result<bool, KvError> {
        Ok(false)
    }
    fn flush(&self) -> Result<(), KvError> {
        Ok(())
    }
    fn keys(&self) -> Result<Vec<Vec<u8>>, KvError> {
        Ok(vec![])
    }
    fn len(&self) -> Result<usize, KvError> {
        Ok(self.0)
    }
}

#[test]
fn kv_store_is_empty_follows_len() {
    assert!(Fixed(0).is_empty().unwrap());
    assert!(!Fixed(2).is_empty().unwrap());
}

#[test]
fn block_store_error_messages() {
    let cid = ContentId::from_bytes(b"x");
    let text = cid.to_cid_string();
    assert_eq!(BlockStoreError::Storage("disk".into()).message(), "Storage error: disk");
    assert_eq!(
        BlockStoreError::BlockTooLarge { size: 2048, max: 1024 }.message(),
        "Block too large: 2048 bytes (max: 1024)"
    );
    assert_eq!(BlockStoreError::NotFound(cid.clone()).message(), format!("Block not found: {}", text));
    let other = ContentId::from_bytes(b"y");
    assert_eq!(
        BlockStoreError::IntegrityError { expected: cid.clone(), actual: other.clone() }.message(),
        format!("Integrity error: expected {}, got {}", text, other.to_cid_string())
    );
    assert_eq!(BlockStoreError::Config("c".into()).message(), "Configuration error: c");
}

#[test]
fn provider_errors_from_store_errors() {
    let cid = ContentId::from_bytes(b"x");
    assert!(matches!(
        ContentProviderError::from_store_error(BlockStoreError::NotFound(cid.clone())),
        ContentProviderError::NotFound(c) if c == cid
    ));
    match ContentProviderError::from_store_error(BlockStoreError::Database("locked".into())) {
        ContentProviderError::Storage(m) => assert_eq!(m, "Database error: locked"),
        _ => panic!("expected a storage error"),
    }
    let e = ContentProviderError::ProvidersExhausted { cid: cid.clone(), attempts: 3 };
    assert_eq!(e.message(), format!("All 3 provider attempts exhausted for {}", cid.to_cid_string()));
    assert!(ContentProviderError::NotFound(cid).message().contains("not found"));
    assert!(Block::new(vec![1]).verify());
}

fn small_storage() -> StorageConfig {
    StorageConfig::from_values(PathBuf::from("/tmp/dht"), Some(2), Some(2), Some(100), None)
}

#[test]
fn record_put_checks_value_size_then_capacity() {
    let config = small_storage();
    assert_eq!(config.check_record_put(101, 0), Err(flow_node::store::RecordStoreError::ValueTooLarge));
    assert_eq!(config.check_record_put(101, 5), Err(flow_node::store::RecordStoreError::ValueTooLarge));
    assert_eq!(config.check_record_put(100, 1), Ok(()));
    assert_eq!(config.check_record_put(100, 2), Err(flow_node::store::RecordStoreError::MaxRecords));
    assert_eq!(config.check_record_put(0, 0), Ok(()));
}

#[test]
fn provider_limit_per_key() {
    let config = small_storage();
    assert_eq!(config.check_provider_add(0), Ok(()));
    assert_eq!(config.check_provider_add(1), Ok(()));
    assert_eq!(config.check_provider_add(2), Err(flow_node::store::RecordStoreError::MaxProvidedKeys));
}

#[test]
fn provider_key_is_key_then_peer() {
    assert_eq!(flow_node::store::provider_key(b"key", b"peer"), b"keypeer".to_vec());
    assert_eq!(flow_node::store::provider_key(b"", b""), Vec::<u8>::new());
}

#[test]
fn record_expiry_at_and_after_the_deadline() {
    assert!(!flow_node::store::record_expired(None, u64::MAX));
    assert!(!flow_node::store::record_expired(Some(10), 9));
    assert!(flow_node::store::record_expired(Some(10), 10));
    assert!(flow_node::store::record_expired(Some(10), 11));
}

#[test]
fn put_checks_size_first() {
    let c = BlockStoreConfig::from_values(PathBuf::from("/data"), Some(10), Some(100), None, None);
    match c.put_step(11, PutEvent::Begin) {
        PutAction::Fail(BlockStoreError::BlockTooLarge { size, max }) => {
            assert_eq!(size, 11);
            assert_eq!(max, 10);
        }
        other => panic!("unexpected step {:?}", other),
    }
    assert!(matches!(c.put_step(10, PutEvent::Begin), PutAction::CheckPresence));
}

#[test]
fn put_skips_a_present_block() {
    let c = BlockStoreConfig::from_values(PathBuf::from("/data"), Some(10), Some(100), None, None);
    assert!(matches!(c.put_step(5, PutEvent::Presence(true)), PutAction::AlreadyStored));
    assert!(matches!(c.put_step(5, PutEvent::Presence(false)), PutAction::ReadStats));
    let unlimited = BlockStoreConfig::from_values(PathBuf::from("/data"), Some(10), Some(0), None, None);
    assert!(matches!(unlimited.put_step(5, PutEvent::Presence(false)), PutAction::Write));
}

#[test]
fn put_refuses_beyond_capacity() {
    let c = BlockStoreConfig::from_values(PathBuf::from("/data"), Some(10), Some(100), None, None);
    assert!(matches!(c.put_step(5, PutEvent::Stats(95)), PutAction::Write));
    match c.put_step(6, PutEvent::Stats(95)) {
        PutAction::Fail(BlockStoreError::Storage(m)) => assert_eq!(m, "Block store capacity exceeded"),
        other => panic!("unexpected step {:?}", other),
    }
}
