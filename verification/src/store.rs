//! Configuration and bookkeeping rules of the persistent stores: the block store (size and
//! capacity limits, block and byte counters), the DHT record store and the key-value store.

use vstd::prelude::*;

use std::path::PathBuf;

use crate::error::BlockStoreError;
use crate::text::lowercase_is;

verus! {

#[verifier::external_type_specification]
#[verifier::external_body]
pub struct ExPathBuf(std::path::PathBuf);

/// `PathBuf::clone`; nothing is stated of the copy.
pub assume_specification[ <std::path::PathBuf as std::clone::Clone>::clone ](p: &PathBuf) -> PathBuf;

/// A path from its text, by `PathBuf::from`. Nothing is stated of the path: the library only
/// hands it to the storage backend.
#[verifier::external_body]
fn path_from(text: &str) -> (r: PathBuf) {
    PathBuf::from(text)
}

// ---------------------------------------------------------------------------------------------
// Block store
// ---------------------------------------------------------------------------------------------

/// Default maximum size of one block: 1 MB.
pub const DEFAULT_MAX_BLOCK_SIZE: usize = 1048576;

/// Default maximum total storage: 10 GB.
pub const DEFAULT_MAX_TOTAL_SIZE: u64 = 10737418240;

/// Configuration of the block store.
#[derive(Debug, Clone)]
pub struct BlockStoreConfig {
    /// Database directory.
    pub db_path: PathBuf,
    /// Maximum size of one block in bytes.
    pub max_block_size: usize,
    /// Maximum total storage in bytes (0 = unlimited).
    pub max_total_size_bytes: u64,
    /// Whether LZ4 compression is on.
    pub enable_compression: bool,
    /// Maximum open files of the database.
    pub max_open_files: i32,
}

impl Default for BlockStoreConfig {
    fn default() -> (r: Self)
        ensures
            r.max_block_size == DEFAULT_MAX_BLOCK_SIZE,
            r.max_total_size_bytes == DEFAULT_MAX_TOTAL_SIZE,
            r.enable_compression,
            r.max_open_files == 512,
    {
        BlockStoreConfig {
            db_path: path_from("/tmp/flow/blocks"),
            max_block_size: DEFAULT_MAX_BLOCK_SIZE,
            max_total_size_bytes: DEFAULT_MAX_TOTAL_SIZE,
            enable_compression: true,
            max_open_files: 512,
        }
    }
}

impl BlockStoreConfig {
    /// The configuration `from_env` builds from the path it settled on and the parsed values of
    /// the other variables (`None` when unset or not parsable): each missing value takes its
    /// default.
    pub fn from_values(
        db_path: PathBuf,
        max_block_size: Option<usize>,
        max_total_size_bytes: Option<u64>,
        enable_compression: Option<bool>,
        max_open_files: Option<i32>,
    ) -> (r: Self)
        ensures
            r.db_path == db_path,
            r.max_block_size == match max_block_size { Some(v) => v, None => DEFAULT_MAX_BLOCK_SIZE },
            r.max_total_size_bytes == match max_total_size_bytes { Some(v) => v, None => DEFAULT_MAX_TOTAL_SIZE },
            r.enable_compression == match enable_compression { Some(v) => v, None => true },
            r.max_open_files == match max_open_files { Some(v) => v, None => 512i32 },
    {
        BlockStoreConfig {
            db_path,
            max_block_size: match max_block_size {
                Some(v) => v,
                None => DEFAULT_MAX_BLOCK_SIZE,
            },
            max_total_size_bytes: match max_total_size_bytes {
                Some(v) => v,
                None => DEFAULT_MAX_TOTAL_SIZE,
            },
            enable_compression: match enable_compression {
                Some(v) => v,
                None => true,
            },
            max_open_files: match max_open_files {
                Some(v) => v,
                None => 512,
            },
        }
    }

    /// Checks a block's size against the limit.
    pub fn check_block_size(&self, size: usize) -> (r: Result<(), BlockStoreError>)
        ensures
            size > self.max_block_size ==> (r matches Err(BlockStoreError::BlockTooLarge { size: s, max: m }) && s == size
                && m == self.max_block_size),
            size <= self.max_block_size ==> r is Ok,
    {
        if size > self.max_block_size {
            return Err(BlockStoreError::BlockTooLarge { size, max: self.max_block_size });
        }
        Ok(())
    }

    /// Checks that a new block of `size` bytes fits in the remaining capacity (always, when
    /// the capacity is unlimited).
    pub fn check_capacity(&self, stored_bytes: u64, size: usize) -> (r: Result<(), BlockStoreError>)
        requires
            stored_bytes + size <= u64::MAX,
        ensures
            (self.max_total_size_bytes > 0 && stored_bytes + size > self.max_total_size_bytes) ==> (r matches Err(
                BlockStoreError::Storage(m)) && m@ == "Block store capacity exceeded"@),
            !(self.max_total_size_bytes > 0 && stored_bytes + size > self.max_total_size_bytes) ==> r is Ok,
    {
        if self.max_total_size_bytes > 0 && stored_bytes + size as u64 > self.max_total_size_bytes {
            return Err(BlockStoreError::Storage("Block store capacity exceeded".to_owned()));
        }
        Ok(())
    }
}

/// What storing a block asks of the database next.
#[derive(Debug)]
pub enum PutAction {
    /// Look up whether a block with the same identifier is stored.
    CheckPresence,
    /// Read the stored-bytes counter.
    ReadStats,
    /// Write the block and count it.
    Write,
    /// The block is stored already: nothing to write.
    AlreadyStored,
    /// Refuse the block.
    Fail(BlockStoreError),
}

/// What the database answered to storing a block: the start, whether the block is present,
/// or the stored-bytes counter.
#[derive(Debug, Clone, Copy)]
pub enum PutEvent {
    /// Storing starts.
    Begin,
    /// Whether a block with the same identifier is stored.
    Presence(bool),
    /// The stored-bytes counter.
    Stats(u64),
}

impl BlockStoreConfig {
    /// The next step of storing a block of `size` bytes: the size limit first, then
    /// deduplication (a present block is not written again), then, with a capacity set, the
    /// capacity against the stored bytes, and last the write.
    pub fn put_step(&self, size: usize, event: PutEvent) -> (r: PutAction)
        requires
            event matches PutEvent::Stats(total) ==> total + size <= u64::MAX,
        ensures
            match event {
                PutEvent::Begin => if size > self.max_block_size {
                    r matches PutAction::Fail(BlockStoreError::BlockTooLarge { size: s, max: m }) && s == size
                        && m == self.max_block_size
                } else {
                    r == PutAction::CheckPresence
                },
                PutEvent::Presence(present) => if present {
                    r == PutAction::AlreadyStored
                } else if self.max_total_size_bytes > 0 {
                    r == PutAction::ReadStats
                } else {
                    r == PutAction::Write
                },
                PutEvent::Stats(total) => if self.max_total_size_bytes > 0 && total + size > self.max_total_size_bytes {
                    r matches PutAction::Fail(BlockStoreError::Storage(m)) && m@ == "Block store capacity exceeded"@
                } else {
                    r == PutAction::Write
                },
            },
    {
        match event {
            PutEvent::Begin => match self.check_block_size(size) {
                Ok(()) => PutAction::CheckPresence,
                Err(e) => PutAction::Fail(e),
            },
            PutEvent::Presence(present) => {
                if present {
                    PutAction::AlreadyStored
                } else if self.max_total_size_bytes > 0 {
                    PutAction::ReadStats
                } else {
                    PutAction::Write
                }
            },
            PutEvent::Stats(total) => match self.check_capacity(total, size) {
                Ok(()) => PutAction::Write,
                Err(e) => PutAction::Fail(e),
            },
        }
    }
}

/// Statistics of the block store.
#[derive(Debug, Clone, Copy)]
pub struct BlockStoreStats {
    /// Number of stored blocks.
    pub block_count: u64,
    /// Total size of the stored blocks in bytes.
    pub total_size_bytes: u64,
    /// Maximum block size.
    pub max_block_size: usize,
    /// Maximum total storage (0 = unlimited).
    pub max_total_size_bytes: u64,
}

/// The little-endian value of eight bytes.
pub open spec fn le_value(b: Seq<u8>) -> nat
    decreases b.len(),
{
    if b.len() == 0 {
        0
    } else {
        b[0] as nat + 256 * le_value(b.drop_first())
    }
}

/// The value of a stored counter: the little-endian number in exactly eight bytes; 0 when
/// absent or of another length.
pub open spec fn counter_value(b: Option<Seq<u8>>) -> nat {
    match b {
        Some(bytes) => if bytes.len() == 8 { le_value(bytes) } else { 0 },
        None => 0,
    }
}

/// Reads a stored counter.
pub fn decode_counter(bytes: Option<&[u8]>) -> (r: u64)
    ensures
        r == counter_value(match bytes { Some(b) => Some(b@), None => None }),
{
    match bytes {
        Some(b) => {
            if b.len() != 8 {
                return 0;
            }
            let mut v: u64 = 0;
            let mut i: usize = 8;
            while i > 0
                invariant
                    b@.len() == 8,
                    i <= 8,
                    v == le_value(b@.skip(i as int)),
                    v < pow256((8 - i) as nat),
                decreases i,
            {
                i = i - 1;
                proof {
                    assert(b@.skip(i as int).drop_first() =~= b@.skip(i + 1));
                    assert(b@.skip(i as int)[0] == b@[i as int]);
                    lemma_pow256_step((8 - i - 1) as nat);
                    assert(v * 256 + 255 < pow256((8 - i) as nat)) by (nonlinear_arith)
                        requires v < pow256((8 - i - 1) as nat), pow256((8 - i) as nat) == 256 * pow256((8 - i - 1) as nat);
                    lemma_pow256_bound((8 - i) as nat);
                }
                v = b[i] as u64 + 256 * v;
            }
            assert(b@.skip(0) =~= b@);
            v
        },
        None => 0,
    }
}

/// 256 to the power `n`.
pub open spec fn pow256(n: nat) -> nat
    decreases n,
{
    if n == 0 { 1 } else { 256 * pow256((n - 1) as nat) }
}

proof fn lemma_pow256_step(n: nat)
    ensures
        pow256(n + 1) == 256 * pow256(n),
{
}

proof fn lemma_pow256_bound(n: nat)
    requires
        n <= 8,
    ensures
        pow256(n) <= 0x1_0000_0000_0000_0000,
    decreases n,
{
    reveal_with_fuel(pow256, 9);
}

/// The eight little-endian bytes of a counter.
pub fn encode_counter(n: u64) -> (r: Vec<u8>)
    ensures
        r@.len() == 8,
        le_value(r@) == n,
{
    let mut out: Vec<u8> = Vec::new();
    let mut rest: u64 = n;
    let mut i: usize = 0;
    proof {
        assert(le_value(out@) == 0);
        assert(pow256(0) == 1);
        assert(pow256(8) == 0x1_0000_0000_0000_0000) by {
            reveal_with_fuel(pow256, 9);
        }
    }
    while i < 8
        invariant
            i <= 8,
            out@.len() == i,
            n as nat == le_value(out@) + pow256(i as nat) * rest,
            rest < pow256((8 - i) as nat),
        decreases 8 - i,
    {
        proof {
            lemma_le_push(out@, (rest % 256) as u8);
            lemma_pow256_step(i as nat);
            lemma_pow256_step((8 - i - 1) as nat);
            assert(rest == 256 * (rest / 256) + rest % 256) by (nonlinear_arith);
            assert(pow256(i as nat) * rest == pow256(i as nat) * (rest % 256) + pow256((i + 1) as nat) * (rest / 256)) by (nonlinear_arith)
                requires rest == 256 * (rest / 256) + rest % 256, pow256((i + 1) as nat) == 256 * pow256(i as nat);
            assert(rest / 256 < pow256((8 - i - 1) as nat)) by (nonlinear_arith)
                requires rest < pow256((8 - i) as nat), pow256((8 - i) as nat) == 256 * pow256((8 - i - 1) as nat);
        }
        out.push((rest % 256) as u8);
        rest = rest / 256;
        i = i + 1;
    }
    proof {
        assert(pow256(0) == 1);
    }
    out
}

proof fn lemma_le_push(s: Seq<u8>, b: u8)
    ensures
        le_value(s.push(b)) == le_value(s) + pow256(s.len()) * b,
    decreases s.len(),
{
    if s.len() == 0 {
        assert(s.push(b).drop_first() =~= Seq::<u8>::empty());
        assert(le_value(Seq::<u8>::empty()) == 0);
        assert(pow256(0) == 1);
        assert(s.push(b)[0] == b);
    } else {
        assert(s.push(b)[0] == s[0]);
        assert(s.push(b).drop_first() =~= s.drop_first().push(b));
        lemma_le_push(s.drop_first(), b);
        lemma_pow256_step((s.len() - 1) as nat);
        assert(256 * (le_value(s.drop_first()) + pow256((s.len() - 1) as nat) * b) == 256 * le_value(s.drop_first())
            + pow256(s.len()) * b) by (nonlinear_arith)
            requires pow256(s.len()) == 256 * pow256((s.len() - 1) as nat);
    }
}

/// A counter written and read back is the same counter.
pub proof fn law_counter_round_trip(n: u64, bytes: Seq<u8>)
    requires
        bytes.len() == 8,
        le_value(bytes) == n,
    ensures
        counter_value(Some(bytes)) == n,
{
}

/// The counters after storing a new block of `size` bytes: one more block, `size` more bytes.
pub open spec fn counters_put(block_count: u64, total_size: u64, size: usize) -> (int, int) {
    (block_count + 1, total_size + size)
}

/// The counters after deleting a block of `size` bytes, never below zero.
pub open spec fn counters_delete(block_count: int, total_size: int, size: usize) -> (int, int) {
    (if block_count >= 1 { block_count - 1 } else { 0 }, if total_size >= size { total_size - size } else { 0 })
}

/// The counters after storing a new block of `size` bytes.
pub fn counters_after_put(block_count: u64, total_size: u64, size: usize) -> (r: (u64, u64))
    requires
        block_count < u64::MAX,
        total_size + size <= u64::MAX,
    ensures
        (r.0 as int, r.1 as int) == counters_put(block_count, total_size, size),
{
    (block_count + 1, total_size + size as u64)
}

/// The counters after deleting a block of `size` bytes.
pub fn counters_after_delete(block_count: u64, total_size: u64, size: usize) -> (r: (u64, u64))
    ensures
        (r.0 as int, r.1 as int) == counters_delete(block_count as int, total_size as int, size),
{
    (block_count.saturating_sub(1), total_size.saturating_sub(size as u64))
}

/// Storing a block and deleting it again leaves the counters as they were.
pub proof fn law_put_then_delete_restores_counters(block_count: u64, total_size: u64, size: usize)
    ensures
        counters_delete(counters_put(block_count, total_size, size).0, counters_put(block_count, total_size, size).1, size)
            == (block_count as int, total_size as int),
{
}

/// The statistics from the two counters and the configuration's limits.
pub fn stats_of(config: &BlockStoreConfig, block_count: u64, total_size_bytes: u64) -> (r: BlockStoreStats)
    ensures
        r.block_count == block_count,
        r.total_size_bytes == total_size_bytes,
        r.max_block_size == config.max_block_size,
        r.max_total_size_bytes == config.max_total_size_bytes,
{
    BlockStoreStats {
        block_count,
        total_size_bytes,
        max_block_size: config.max_block_size,
        max_total_size_bytes: config.max_total_size_bytes,
    }
}

// ---------------------------------------------------------------------------------------------
// DHT record store
// ---------------------------------------------------------------------------------------------

/// Configuration of the persistent DHT record store.
#[derive(Debug, Clone)]
pub struct StorageConfig {
    /// Database directory.
    pub db_path: PathBuf,
    /// Maximum number of records.
    pub max_records: usize,
    /// Maximum provider records per key.
    pub max_providers_per_key: usize,
    /// Maximum size of one record value in bytes.
    pub max_value_bytes: usize,
    /// Whether compression is on.
    pub enable_compression: bool,
}

impl StorageConfig {
    /// The default configuration at the given path: 65536 records, 20 providers per key,
    /// 64 KB values, compression on.
    pub fn with_path(db_path: PathBuf) -> (r: Self)
        ensures
            r.db_path == db_path,
            r.max_records == 65536,
            r.max_providers_per_key == 20,
            r.max_value_bytes == 65536,
            r.enable_compression,
    {
        StorageConfig { db_path, max_records: 65536, max_providers_per_key: 20, max_value_bytes: 65536, enable_compression: true }
    }

    /// The configuration `from_env` builds from the path it settled on and the parsed values of
    /// the other variables (`None` when unset or not parsable): missing values take the defaults.
    pub fn from_values(
        db_path: PathBuf,
        max_records: Option<usize>,
        max_providers_per_key: Option<usize>,
        max_value_bytes: Option<usize>,
        enable_compression: Option<bool>,
    ) -> (r: Self)
        ensures
            r.db_path == db_path,
            r.max_records == match max_records { Some(v) => v, None => 65536 },
            r.max_providers_per_key == match max_providers_per_key { Some(v) => v, None => 20 },
            r.max_value_bytes == match max_value_bytes { Some(v) => v, None => 65536 },
            r.enable_compression == match enable_compression { Some(v) => v, None => true },
    {
        StorageConfig {
            db_path,
            max_records: match max_records {
                Some(v) => v,
                None => 65536,
            },
            max_providers_per_key: match max_providers_per_key {
                Some(v) => v,
                None => 20,
            },
            max_value_bytes: match max_value_bytes {
                Some(v) => v,
                None => 65536,
            },
            enable_compression: match enable_compression {
                Some(v) => v,
                None => true,
            },
        }
    }
}

/// Why the DHT record store refuses a write.
#[derive(Debug, Clone, Copy, PartialEq, Eq, Structural)]
pub enum RecordStoreError {
    /// The store holds its maximum number of records.
    MaxRecords,
    /// The record's value is over the size limit.
    ValueTooLarge,
    /// The key has its maximum number of providers.
    MaxProvidedKeys,
}

impl StorageConfig {
    /// Whether a record with a value of `value_len` bytes may be stored while the store holds
    /// `record_count` records: the value size is checked first, then the record count.
    pub fn check_record_put(&self, value_len: usize, record_count: usize) -> (r: Result<(), RecordStoreError>)
        ensures
            value_len > self.max_value_bytes ==> r == Err::<(), RecordStoreError>(RecordStoreError::ValueTooLarge),
            value_len <= self.max_value_bytes && record_count >= self.max_records ==> r == Err::<(), RecordStoreError>(
                RecordStoreError::MaxRecords,
            ),
            value_len <= self.max_value_bytes && record_count < self.max_records ==> r is Ok,
    {
        if value_len > self.max_value_bytes {
            return Err(RecordStoreError::ValueTooLarge);
        }
        if record_count >= self.max_records {
            return Err(RecordStoreError::MaxRecords);
        }
        Ok(())
    }

    /// Whether one more provider may be added for a key that has `existing` live providers.
    pub fn check_provider_add(&self, existing: usize) -> (r: Result<(), RecordStoreError>)
        ensures
            existing >= self.max_providers_per_key ==> r == Err::<(), RecordStoreError>(RecordStoreError::MaxProvidedKeys),
            existing < self.max_providers_per_key ==> r is Ok,
    {
        if existing >= self.max_providers_per_key {
            Err(RecordStoreError::MaxProvidedKeys)
        } else {
            Ok(())
        }
    }
}

/// The key a provider record is stored under: the record key followed by the provider's peer
/// identifier bytes.
pub fn provider_key(record_key: &[u8], provider: &[u8]) -> (r: Vec<u8>)
    ensures
        r@ == record_key@ + provider@,
{
    let mut out: Vec<u8> = Vec::new();
    crate::dag_cbor::push_raw(&mut out, record_key);
    crate::dag_cbor::push_raw(&mut out, provider);
    assert(out@ =~= record_key@ + provider@);
    out
}

/// Whether a record that expires at `expires` (if ever) has expired at `now`: it has once
/// `now` reaches its expiry.
pub fn record_expired(expires: Option<u64>, now: u64) -> (r: bool)
    ensures
        r == (expires matches Some(t) && now >= t),
{
    match expires {
        Some(t) => now >= t,
        None => false,
    }
}

// ---------------------------------------------------------------------------------------------
// Key-value store
// ---------------------------------------------------------------------------------------------

/// Configuration of the key-value store.
#[derive(Debug, Clone)]
pub struct KvConfig {
    /// Database directory.
    pub path: PathBuf,
    /// Whether compression is on.
    pub enable_compression: bool,
    /// Maximum open files.
    pub max_open_files: i32,
    /// Write buffer size in bytes.
    pub write_buffer_size: usize,
}

impl Default for KvConfig {
    fn default() -> (r: Self)
        ensures
            r.enable_compression,
            r.max_open_files == 1000,
            r.write_buffer_size == 67108864,
    {
        KvConfig { path: path_from("/tmp/flow-kv"), enable_compression: true, max_open_files: 1000, write_buffer_size: 64 * 1024 * 1024 }
    }
}

/// The truth of a boolean setting: "true", "1", "yes" or "on" in any case is true; everything
/// else, unset included, gives the default.
pub open spec fn setting_on(value: Option<Seq<char>>, default: bool) -> bool {
    match value {
        Some(v) => if lowercase_is(v, "true"@) || lowercase_is(v, "1"@) || lowercase_is(v, "yes"@) || lowercase_is(v, "on"@) {
            true
        } else {
            default
        },
        None => default,
    }
}

/// Reads a boolean setting from its value (`None` when unset).
pub fn parse_setting(value: Option<&str>, default: bool) -> (r: bool)
    ensures
        r == setting_on(match value { Some(v) => Some(v@), None => None }, default),
{
    match value {
        Some(v) => {
            if crate::text::str_lowercase_is(v, "true") || crate::text::str_lowercase_is(v, "1") || crate::text::str_lowercase_is(
                v,
                "yes",
            ) || crate::text::str_lowercase_is(v, "on") {
                true
            } else {
                default
            }
        },
        None => default,
    }
}

impl KvConfig {
    /// The configuration `from_env` builds from the path it settled on, the compression
    /// setting's value (`None` when unset) and the parsed numbers (`None` when unset or not
    /// parsable).
    pub fn from_values(path: PathBuf, enable_compression: Option<&str>, max_open_files: Option<i32>, write_buffer_size: Option<usize>) -> (r: Self)
        ensures
            r.path == path,
            r.enable_compression == setting_on(match enable_compression { Some(v) => Some(v@), None => None }, true),
            r.max_open_files == match max_open_files { Some(v) => v, None => 1000i32 },
            r.write_buffer_size == match write_buffer_size { Some(v) => v, None => 67108864 },
    {
        KvConfig {
            path,
            enable_compression: parse_setting(enable_compression, true),
            max_open_files: match max_open_files {
                Some(v) => v,
                None => 1000,
            },
            write_buffer_size: match write_buffer_size {
                Some(v) => v,
                None => 64 * 1024 * 1024,
            },
        }
    }
}

/// Errors of key-value operations.
#[derive(Debug)]
pub enum KvError {
    /// The key is absent.
    NotFound,
    /// Storage error.
    Storage(String),
    /// Serialization error.
    Serialization(String),
    /// Configuration error.
    Config(String),
}

/// Key-value store operations.
pub trait KvStore {
    /// The value stored under a key.
    fn get(&self, key: &[u8]) -> Result<Option<Vec<u8>>, KvError>;

    /// Stores a value under a key.
    fn put(&self, key: &[u8], value: &[u8]) -> Result<(), KvError>;

    /// Deletes a key.
    fn delete(&self, key: &[u8]) -> Result<(), KvError>;

    /// Whether a key is present.
    fn has_key(&self, key: &[u8]) -> Result<bool, KvError>;

    /// Flushes pending writes.
    fn flush(&self) -> Result<(), KvError>;

    /// All keys.
    fn keys(&self) -> Result<Vec<Vec<u8>>, KvError>;

    /// The (approximate) number of keys.
    fn len(&self) -> Result<usize, KvError>;

    /// Whether the store holds no key, from `len`: `Ok(true)` exactly when `len` gives
    /// `Ok(0)`, and the error of `len` when it fails.
    fn is_empty(&self) -> (r: Result<bool, KvError>)
        ensures
            exists|l: Result<usize, KvError>| #[trigger]
                call_ensures(Self::len, (self,), l) && match l {
                    Ok(n) => r == Ok::<bool, KvError>(n == 0),
                    Err(e) => r == Err::<bool, KvError>(e),
                },
    {
        match self.len() {
            Ok(n) => Ok(n == 0),
            Err(e) => Err(e),
        }
    }
}

} // verus!
