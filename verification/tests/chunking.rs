use std::io::Cursor;

use flow_node::chunking::config::ChunkingConfig;
use flow_node::chunking::fastcdc::FastCdcChunker;
use flow_node::chunking::fixed::FixedChunker;
use flow_node::chunking::rabin::RabinChunker;
use flow_node::chunking::rabin_core::{IPFS_POLYNOMIAL, RabinCore, WINDOW_SIZE};
use flow_node::chunking::streaming::{
    FastCdcStreamingIter, FixedStreamingIter, RabinStreamingIter, StreamBuffer,
};
use flow_node::chunking::iter::ChunkIter;
use flow_node::chunking::types::{ChunkData, StreamingChunkError};
use flow_node::chunking::{Chunker, ChunkingAlgorithm};

fn drain(mut it: ChunkIter) -> Vec<ChunkData> {
    let mut out = Vec::new();
    while let Some(c) = it.next() {
        out.push(c);
    }
    out
}

fn test_config() -> ChunkingConfig {
    ChunkingConfig::new(64, 256, 1024)
}

fn reconstruct(chunks: &[ChunkData]) -> Vec<u8> {
    chunks.iter().flat_map(|c| c.data.clone()).collect()
}

fn drain_fixed(mut it: FixedStreamingIter<Cursor<Vec<u8>>>) -> Vec<Result<ChunkData, StreamingChunkError>> {
    let mut out = Vec::new();
    while let Some(r) = it.next() {
        out.push(r);
    }
    out
}

fn drain_fastcdc(mut it: FastCdcStreamingIter<Cursor<Vec<u8>>>) -> Vec<Result<ChunkData, StreamingChunkError>> {
    let mut out = Vec::new();
    while let Some(r) = it.next() {
        out.push(r);
    }
    out
}

fn drain_rabin(mut it: RabinStreamingIter<Cursor<Vec<u8>>>) -> Vec<Result<ChunkData, StreamingChunkError>> {
    let mut out = Vec::new();
    while let Some(r) = it.next() {
        out.push(r);
    }
    out
}

// ---------------------------------------------------------------- config

#[test]
fn test_config_default_sizes() {
    let c = ChunkingConfig::default();
    assert_eq!((c.min_size, c.target_size, c.max_size), (65536, 262144, 1048576));
    assert!(c.validate().is_ok());
}

#[test]
fn test_config_validate_errors() {
    let zero = ChunkingConfig { min_size: 0, target_size: 10, max_size: 20 };
    assert_eq!(zero.validate().unwrap_err(), "min_size must be greater than 0");
    let bad_min = ChunkingConfig { min_size: 30, target_size: 10, max_size: 40 };
    assert_eq!(bad_min.validate().unwrap_err(), "min_size (30) must be <= target_size (10)");
    let bad_max = ChunkingConfig { min_size: 1, target_size: 50, max_size: 40 };
    assert_eq!(bad_max.validate().unwrap_err(), "target_size (50) must be <= max_size (40)");
}

#[test]
fn test_config_from_values_clamps() {
    let c = ChunkingConfig::from_values(Some(10), Some(5), Some(1));
    assert_eq!((c.min_size, c.target_size, c.max_size), (1024, 1024, 1024));
    let d = ChunkingConfig::from_values(None, None, None);
    assert_eq!(d, ChunkingConfig::default());
    assert_eq!(ChunkingConfig::small().target_size, 4096);
    assert_eq!(ChunkingConfig::large().max_size, 4 * 1024 * 1024);
}

// ---------------------------------------------------------------- algorithm

#[test]
fn test_algorithm_names() {
    assert_eq!(ChunkingAlgorithm::Fixed.name(), "fixed");
    assert_eq!(ChunkingAlgorithm::FastCdc.name(), "fastcdc");
    assert_eq!(ChunkingAlgorithm::Rabin.name(), "rabin");
    assert_eq!(ChunkingAlgorithm::default(), ChunkingAlgorithm::FastCdc);
}

#[test]
fn test_algorithm_from_str() {
    assert_eq!(ChunkingAlgorithm::from_str("FIXED"), Some(ChunkingAlgorithm::Fixed));
    assert_eq!(ChunkingAlgorithm::from_str("Fast-CDC"), Some(ChunkingAlgorithm::FastCdc));
    assert_eq!(ChunkingAlgorithm::from_str("fast_cdc"), Some(ChunkingAlgorithm::FastCdc));
    assert_eq!(ChunkingAlgorithm::from_str("Rabin"), Some(ChunkingAlgorithm::Rabin));
    assert_eq!(ChunkingAlgorithm::from_str("gear"), None);
    assert_eq!(ChunkingAlgorithm::from_value(Some("bogus")), ChunkingAlgorithm::FastCdc);
    assert_eq!(ChunkingAlgorithm::from_value(Some("rabin")), ChunkingAlgorithm::Rabin);
    assert_eq!(ChunkingAlgorithm::from_value(None), ChunkingAlgorithm::FastCdc);
}

#[test]
fn test_create_chunker_matches_algorithm() {
    let data: Vec<u8> = (0..5000).map(|i| (i % 256) as u8).collect();
    for alg in [ChunkingAlgorithm::Fixed, ChunkingAlgorithm::FastCdc, ChunkingAlgorithm::Rabin] {
        let chunker = alg.create_chunker(test_config());
        assert_eq!(Chunker::name(&chunker), alg.name());
        assert_eq!(chunker.target_size(), 256);
        let chunks = Chunker::chunk(&chunker, &data);
        assert_eq!(reconstruct(&chunks), data);
    }
}

// ---------------------------------------------------------------- fixed

#[test]
fn test_fixed_chunker_basic() {
    let chunker = FixedChunker::with_size(10);
    let data = b"hello world, this is a test of fixed chunking";
    let chunks = chunker.chunk(data);
    let expected_count = (data.len() + 9) / 10;
    assert_eq!(chunks.len(), expected_count);
    assert_eq!(reconstruct(&chunks), data);
}

#[test]
fn test_fixed_chunker_empty() {
    let chunker = FixedChunker::with_size(100);
    let chunks = chunker.chunk(b"");
    assert!(chunks.is_empty());
}

#[test]
fn test_fixed_chunker_smaller_than_chunk_size() {
    let chunker = FixedChunker::with_size(100);
    let data = b"small";
    let chunks = chunker.chunk(data);
    assert_eq!(chunks.len(), 1);
    assert_eq!(chunks[0].data, data);
    assert_eq!(chunks[0].offset, 0);
}

#[test]
fn test_fixed_chunker_exact_boundary() {
    let chunker = FixedChunker::with_size(5);
    let chunks = chunker.chunk(b"12345");
    assert_eq!(chunks.len(), 1);
    assert_eq!(chunks[0].data.len(), 5);
}

#[test]
fn test_fixed_chunker_offsets() {
    let chunker = FixedChunker::with_size(10);
    let data = vec![0u8; 35];
    let chunks = chunker.chunk(&data);
    assert_eq!(chunks.len(), 4);
    assert_eq!(chunks[0].offset, 0);
    assert_eq!(chunks[0].size(), 10);
    assert_eq!(chunks[1].offset, 10);
    assert_eq!(chunks[1].size(), 10);
    assert_eq!(chunks[2].offset, 20);
    assert_eq!(chunks[2].size(), 10);
    assert_eq!(chunks[3].offset, 30);
    assert_eq!(chunks[3].size(), 5);
}

#[test]
fn test_fixed_chunker_deterministic() {
    let chunker = FixedChunker::with_size(100);
    let data = b"determinism test data that should chunk the same way every time";
    let chunks1 = chunker.chunk(data);
    let chunks2 = chunker.chunk(data);
    assert_eq!(chunks1, chunks2);
}

#[test]
fn test_fixed_chunker_large_file() {
    let chunker = FixedChunker::with_size(1024);
    let data = vec![42u8; 1024 * 1024];
    let chunks = chunker.chunk(&data);
    assert_eq!(chunks.len(), 1024);
    assert_eq!(reconstruct(&chunks), data);
}

// ---------------------------------------------------------------- fastcdc

#[test]
fn test_fastcdc_basic() {
    let chunker = FastCdcChunker::new(test_config());
    let data: Vec<u8> = (0..10000).map(|i| (i % 256) as u8).collect();
    let chunks = chunker.chunk(&data);
    assert!(!chunks.is_empty());
    assert_eq!(reconstruct(&chunks), data);
}

#[test]
fn test_fastcdc_empty() {
    let chunker = FastCdcChunker::new(test_config());
    let chunks = chunker.chunk(b"");
    assert!(chunks.is_empty());
}

#[test]
fn test_fastcdc_small_input() {
    let chunker = FastCdcChunker::new(test_config());
    let data = b"small";
    let chunks = chunker.chunk(data);
    assert_eq!(chunks.len(), 1);
    assert_eq!(chunks[0].data, data);
}

#[test]
fn test_fastcdc_chunk_sizes_within_bounds() {
    let config = ChunkingConfig::new(100, 500, 2000);
    let chunker = FastCdcChunker::new(config);
    let data: Vec<u8> = (0..50000).map(|i| ((i * 7 + 13) % 256) as u8).collect();
    let chunks = chunker.chunk(&data);
    for chunk in &chunks {
        assert!(chunk.size() <= config.max_size);
    }
}

#[test]
fn test_fastcdc_offsets_continuous() {
    let chunker = FastCdcChunker::new(test_config());
    let data: Vec<u8> = (0..10000).map(|i| (i % 256) as u8).collect();
    let chunks = chunker.chunk(&data);
    let mut expected_offset = 0u64;
    for chunk in &chunks {
        assert_eq!(chunk.offset, expected_offset);
        expected_offset += chunk.size() as u64;
    }
    assert_eq!(expected_offset, data.len() as u64);
}

#[test]
fn test_fastcdc_large_file() {
    let chunker = FastCdcChunker::new(ChunkingConfig::default());
    let data = vec![42u8; 5 * 1024 * 1024];
    let chunks = chunker.chunk(&data);
    assert!(chunks.len() >= 5);
    assert!(chunks.len() <= 80);
    assert_eq!(reconstruct(&chunks).len(), data.len());
}

// ---------------------------------------------------------------- rabin core

#[test]
fn test_core_creation() {
    let core = RabinCore::new(&test_config());
    assert_eq!(core.polynomial(), IPFS_POLYNOMIAL);
    assert_eq!(core.mask(), 255);
}

#[test]
fn test_core_custom_polynomial() {
    let poly = 0x123456789ABCDEF;
    let core = RabinCore::with_polynomial(&test_config(), poly);
    assert_eq!(core.polynomial(), poly);
}

#[test]
fn test_core_mask_for_non_power_of_two() {
    let core = RabinCore::new(&ChunkingConfig { min_size: 1, target_size: 1000, max_size: 2000 });
    assert_eq!(core.mask(), 511);
    let zero = RabinCore::new(&ChunkingConfig { min_size: 0, target_size: 0, max_size: 0 });
    assert_eq!(zero.mask(), 0);
}

#[test]
fn test_hash_determinism() {
    let core = RabinCore::new(&test_config());
    let data = b"test data for hashing";
    let mut hash1 = 0u64;
    let mut hash2 = 0u64;
    for &byte in data {
        hash1 = core.update_hash(hash1, byte);
        hash2 = core.update_hash(hash2, byte);
    }
    assert_eq!(hash1, hash2);
}

#[test]
fn test_update_hash_small_values() {
    // The table entry for a zero top byte is zero, so the hash of one byte is the byte.
    let core = RabinCore::new(&test_config());
    assert_eq!(core.update_hash(0, 0x2a), 0x2a);
    assert_eq!(core.update_hash(0x2a, 0x01), 0x2a01);
}

#[test]
fn test_slide_hash_consistency() {
    let core = RabinCore::new(&test_config());
    let data: Vec<u8> = (0..100).map(|i| (i % 256) as u8).collect();
    let mut hash = 0u64;
    for (i, &byte) in data.iter().enumerate() {
        if i < WINDOW_SIZE {
            hash = core.update_hash(hash, byte);
        } else {
            hash = core.slide_hash(hash, data[i - WINDOW_SIZE], byte);
        }
    }
    assert_ne!(hash, 0);
}

#[test]
fn test_find_boundary_empty() {
    let core = RabinCore::new(&test_config());
    assert_eq!(core.find_boundary(&[], 64, 1024), 0);
}

#[test]
fn test_find_boundary_respects_max() {
    let core = RabinCore::new(&test_config());
    let data: Vec<u8> = (0..5000).map(|i| (i % 256) as u8).collect();
    let boundary = core.find_boundary(&data, 64, 512);
    assert!(boundary <= 512);
}

#[test]
fn test_find_boundary_respects_min() {
    let core = RabinCore::new(&test_config());
    let data: Vec<u8> = (0..5000).map(|i| (i % 256) as u8).collect();
    let boundary = core.find_boundary(&data, 100, 1024);
    assert!(boundary >= 100 || boundary == data.len());
}

#[test]
fn test_find_boundary_deterministic() {
    let core = RabinCore::new(&test_config());
    let data: Vec<u8> = (0..1000).map(|i| ((i * 17) % 256) as u8).collect();
    let b1 = core.find_boundary(&data, 64, 512);
    let b2 = core.find_boundary(&data, 64, 512);
    assert_eq!(b1, b2);
}

#[test]
fn test_find_boundary_short_data_takes_all() {
    let core = RabinCore::new(&test_config());
    assert_eq!(core.find_boundary(b"abc", 64, 1024), 3);
}

// ---------------------------------------------------------------- rabin chunker

#[test]
fn test_rabin_basic() {
    let chunker = RabinChunker::new(test_config());
    let data: Vec<u8> = (0..10000).map(|i| (i % 256) as u8).collect();
    let chunks = chunker.chunk(&data);
    assert!(!chunks.is_empty());
    assert_eq!(reconstruct(&chunks), data);
}

#[test]
fn test_rabin_empty() {
    let chunker = RabinChunker::new(test_config());
    let chunks = chunker.chunk(b"");
    assert!(chunks.is_empty());
}

#[test]
fn test_rabin_small_input() {
    let chunker = RabinChunker::new(test_config());
    let data = b"small";
    let chunks = chunker.chunk(data);
    assert_eq!(chunks.len(), 1);
    assert_eq!(chunks[0].data, data);
}

#[test]
fn test_rabin_chunk_sizes_respect_max() {
    let config = ChunkingConfig::new(64, 256, 512);
    let chunker = RabinChunker::new(config);
    let data: Vec<u8> = (0..50000).map(|i| ((i * 7 + 13) % 256) as u8).collect();
    let chunks = chunker.chunk(&data);
    for chunk in &chunks {
        assert!(chunk.size() <= config.max_size, "Chunk size {} exceeds max {}", chunk.size(), config.max_size);
    }
}

#[test]
fn test_rabin_chunk_sizes_respect_min() {
    let config = ChunkingConfig::new(100, 256, 1024);
    let chunker = RabinChunker::new(config);
    let data: Vec<u8> = (0..50000).map(|i| ((i * 7 + 13) % 256) as u8).collect();
    let chunks = chunker.chunk(&data);
    for (i, chunk) in chunks.iter().enumerate() {
        if i != chunks.len() - 1 {
            assert!(chunk.size() >= config.min_size);
        }
    }
}

#[test]
fn test_rabin_offsets_continuous() {
    let chunker = RabinChunker::new(test_config());
    let data: Vec<u8> = (0..10000).map(|i| (i % 256) as u8).collect();
    let chunks = chunker.chunk(&data);
    let mut expected_offset = 0u64;
    for chunk in &chunks {
        assert_eq!(chunk.offset, expected_offset);
        expected_offset += chunk.size() as u64;
    }
    assert_eq!(expected_offset, data.len() as u64);
}

#[test]
fn test_rabin_matches_find_boundary() {
    let chunker = RabinChunker::new(test_config());
    let data: Vec<u8> = (0..7000).map(|i| ((i * 31 + 7) % 251) as u8).collect();
    let chunks = chunker.chunk(&data);
    let mut start = 0usize;
    for chunk in &chunks {
        let n = chunker.rabin_core().find_boundary(&data[start..], 64, 1024);
        assert_eq!(chunk.size(), n);
        start += n;
    }
    assert_eq!(start, data.len());
}

#[test]
fn streamed_rabin_cuts_where_the_configured_core_does() {
    let config = test_config();
    let core = RabinCore::new(&config);
    let data: Vec<u8> = (0..9000).map(|i| ((i * 17 + 3) % 253) as u8).collect();
    let chunks: Vec<ChunkData> = drain_rabin(RabinStreamingIter::new(Cursor::new(data.clone()), config))
        .into_iter()
        .map(|r| r.unwrap())
        .collect();
    for chunk in &chunks {
        let start = chunk.offset as usize;
        assert_eq!(chunk.size(), core.find_boundary(&data[start..], config.min_size, config.max_size));
    }
    assert_eq!(reconstruct(&chunks), data);
}

#[test]
fn test_rabin_custom_polynomial() {
    let config = test_config();
    let chunker1 = RabinChunker::with_polynomial(config, 0x123456789ABCDEF);
    let chunker2 = RabinChunker::with_polynomial(config, 0xFEDCBA987654321);
    let data: Vec<u8> = (0..5000).map(|i| (i % 256) as u8).collect();
    assert_eq!(reconstruct(&chunker1.chunk(&data)), data);
    assert_eq!(reconstruct(&chunker2.chunk(&data)), data);
    assert_eq!(chunker1.polynomial(), 0x123456789ABCDEF);
}

#[test]
fn test_rabin_large_file() {
    let chunker = RabinChunker::new(ChunkingConfig::default());
    let data = vec![42u8; 2 * 1024 * 1024];
    let chunks = chunker.chunk(&data);
    assert_eq!(reconstruct(&chunks).len(), data.len());
}

// ---------------------------------------------------------------- chunk types

#[test]
fn test_chunk_ref_ranges() {
    let chunk = ChunkData::new(b"abcdef".to_vec(), 100);
    let r = chunk.to_chunk_ref();
    assert_eq!(r.size, 6);
    assert_eq!(r.offset, 100);
    assert_eq!(r.byte_range(), 100..106);
    assert!(r.contains_offset(100));
    assert!(r.contains_offset(105));
    assert!(!r.contains_offset(106));
    assert!(!r.contains_offset(99));
    assert!(r.cid.verify(b"abcdef"));
}

// ---------------------------------------------------------------- streaming

#[test]
fn test_stream_buffer_basic() {
    let cursor = Cursor::new(b"hello world".to_vec());
    let mut buffer = StreamBuffer::new(cursor, 1024);
    assert!(!buffer.is_exhausted());
    assert_eq!(buffer.offset(), 0);
    buffer.fill(5).unwrap();
    assert_eq!(buffer.data(), b"hello world");
    let consumed = buffer.consume(6);
    assert_eq!(consumed, b"hello ");
    assert_eq!(buffer.offset(), 6);
    assert_eq!(buffer.data(), b"world");
}

#[test]
fn test_stream_buffer_eof() {
    let cursor = Cursor::new(b"short".to_vec());
    let mut buffer = StreamBuffer::new(cursor, 1024);
    buffer.fill(1000).unwrap();
    assert_eq!(buffer.data().len(), 5);
    buffer.consume(5);
    assert!(buffer.is_exhausted());
}

#[test]
fn stream_buffer_read_request_is_room_capped_by_read_size() {
    let mut buffer = StreamBuffer::new(Cursor::new(Vec::<u8>::new()), 16);
    assert_eq!(buffer.read_request(), 4);
    buffer.append(b"0123456789abc");
    assert_eq!(buffer.read_request(), 3);
    buffer.append(b"def");
    assert_eq!(buffer.read_request(), 0);
}

#[test]
fn stream_buffer_append_keeps_order() {
    let mut buffer = StreamBuffer::new(Cursor::new(Vec::<u8>::new()), 32);
    buffer.append(b"abc");
    buffer.append(b"");
    buffer.append(b"de");
    assert_eq!(buffer.data(), b"abcde");
    assert_eq!(buffer.consume(2), b"ab".to_vec());
    buffer.append(b"xyz");
    assert_eq!(buffer.data(), b"cdexyz");
    assert_eq!(buffer.offset(), 2);
}

#[test]
fn stream_buffer_fill_reads_in_request_sized_pieces() {
    let data: Vec<u8> = (0..40u8).collect();
    let mut buffer = StreamBuffer::new(Cursor::new(data.clone()), 40);
    assert_eq!(buffer.fill(25).unwrap(), 30);
    assert_eq!(buffer.data(), &data[..30]);
    assert_eq!(buffer.fill(100).unwrap(), 40);
    assert_eq!(buffer.data(), &data[..]);
}

struct FailingReader {
    served: bool,
}

impl std::io::Read for FailingReader {
    fn read(&mut self, buf: &mut [u8]) -> std::io::Result<usize> {
        if self.served {
            Err(std::io::Error::new(std::io::ErrorKind::Other, "broken pipe"))
        } else {
            self.served = true;
            let n = buf.len().min(3);
            buf[..n].copy_from_slice(&b"abc"[..n]);
            Ok(n)
        }
    }
}

#[test]
fn stream_buffer_fill_reports_read_error_and_keeps_earlier_bytes() {
    let mut buffer = StreamBuffer::new(FailingReader { served: false }, 64);
    let result = buffer.fill(10);
    assert!(matches!(result, Err(StreamingChunkError::Io(_))));
    assert_eq!(buffer.data(), b"abc");
}

#[test]
fn test_fixed_streaming_iter_basic() {
    let data: Vec<u8> = (0..1000).map(|i| (i % 256) as u8).collect();
    let config = ChunkingConfig::new(100, 100, 100);
    let chunks: Vec<ChunkData> = drain_fixed(FixedStreamingIter::new(Cursor::new(data.clone()), &config))
        .into_iter()
        .map(|r| r.unwrap())
        .collect();
    assert_eq!(chunks.len(), 10);
    for (i, chunk) in chunks.iter().enumerate() {
        assert_eq!(chunk.offset, (i * 100) as u64);
        assert_eq!(chunk.size(), 100);
    }
    assert_eq!(reconstruct(&chunks), data);
}

#[test]
fn test_fixed_streaming_iter_uneven() {
    let data: Vec<u8> = (0..250).map(|i| (i % 256) as u8).collect();
    let config = ChunkingConfig::new(100, 100, 100);
    let chunks: Vec<ChunkData> = drain_fixed(FixedStreamingIter::new(Cursor::new(data.clone()), &config))
        .into_iter()
        .map(|r| r.unwrap())
        .collect();
    assert_eq!(chunks.len(), 3);
    assert_eq!(chunks[0].size(), 100);
    assert_eq!(chunks[1].size(), 100);
    assert_eq!(chunks[2].size(), 50);
    assert_eq!(reconstruct(&chunks), data);
}

#[test]
fn test_fastcdc_streaming_iter() {
    let data: Vec<u8> = (0..10000).map(|i| ((i * 17) % 256) as u8).collect();
    let chunks: Vec<ChunkData> = drain_fastcdc(FastCdcStreamingIter::new(Cursor::new(data.clone()), test_config()))
        .into_iter()
        .map(|r| r.unwrap())
        .collect();
    assert!(!chunks.is_empty());
    assert_eq!(reconstruct(&chunks), data);
}

#[test]
fn test_rabin_streaming_iter() {
    let data: Vec<u8> = (0..10000).map(|i| ((i * 17) % 256) as u8).collect();
    let chunks: Vec<ChunkData> = drain_rabin(RabinStreamingIter::new(Cursor::new(data.clone()), test_config()))
        .into_iter()
        .map(|r| r.unwrap())
        .collect();
    assert!(!chunks.is_empty());
    assert_eq!(reconstruct(&chunks), data);
}

#[test]
fn test_rabin_streaming_matches_in_memory() {
    let data: Vec<u8> = (0..20000).map(|i| ((i * 13 + 5) % 256) as u8).collect();
    let streamed: Vec<ChunkData> = drain_rabin(RabinStreamingIter::new(Cursor::new(data.clone()), test_config()))
        .into_iter()
        .map(|r| r.unwrap())
        .collect();
    let in_memory = RabinChunker::new(test_config()).chunk(&data);
    assert_eq!(streamed, in_memory);
}

#[test]
fn test_streaming_empty_input() {
    let config = test_config();
    assert!(drain_fixed(FixedStreamingIter::new(Cursor::new(Vec::new()), &config)).is_empty());
    assert!(drain_fastcdc(FastCdcStreamingIter::new(Cursor::new(Vec::new()), config)).is_empty());
    assert!(drain_rabin(RabinStreamingIter::new(Cursor::new(Vec::new()), config)).is_empty());
}

#[test]
fn test_fastcdc_deterministic() {
    let chunker = FastCdcChunker::new(test_config());
    let data: Vec<u8> = (0..5000).map(|i| (i % 256) as u8).collect();

    let chunks1 = chunker.chunk(&data);
    let chunks2 = chunker.chunk(&data);

    assert_eq!(chunks1.len(), chunks2.len());
    for (c1, c2) in chunks1.iter().zip(chunks2.iter()) {
        assert_eq!(c1.data, c2.data);
        assert_eq!(c1.offset, c2.offset);
    }
}

#[test]
fn test_fastcdc_deduplication_effectiveness() {
    let config = ChunkingConfig::new(64, 256, 1024);
    let chunker = FastCdcChunker::new(config);

    let original: Vec<u8> = (0..5000).map(|i| (i % 256) as u8).collect();
    let mut modified = original.clone();
    modified.insert(2500, 0xFF);

    let original_chunks = chunker.chunk(&original);
    let modified_chunks = chunker.chunk(&modified);

    let original_cids: std::collections::HashSet<_> = original_chunks
        .iter()
        .map(|c| c.to_chunk_ref().cid.to_cid_string())
        .collect();
    let modified_cids: std::collections::HashSet<_> = modified_chunks
        .iter()
        .map(|c| c.to_chunk_ref().cid.to_cid_string())
        .collect();

    let common_chunks = original_cids.intersection(&modified_cids).count();
    println!(
        "Original: {} chunks, Modified: {} chunks, Common: {}",
        original_cids.len(),
        modified_cids.len(),
        common_chunks
    );
}

#[test]
fn test_fastcdc_iterator_vs_collect() {
    let chunker = FastCdcChunker::new(test_config());
    let data: Vec<u8> = (0..5000).map(|i| (i % 256) as u8).collect();

    let collected: Vec<_> = chunker.chunk(&data);
    let iterated: Vec<_> = drain(Chunker::chunk_iter(&chunker, &data));

    assert_eq!(collected.len(), iterated.len());
    for (c, i) in collected.iter().zip(iterated.iter()) {
        assert_eq!(c.data, i.data);
        assert_eq!(c.offset, i.offset);
    }
}

#[test]
fn test_fixed_chunker_iterator_vs_collect() {
    let chunker = FixedChunker::with_size(50);
    let data = vec![1u8; 200];

    let collected: Vec<_> = chunker.chunk(&data);
    let iterated: Vec<_> = drain(Chunker::chunk_iter(&chunker, &data));

    assert_eq!(collected.len(), iterated.len());
    for (c, i) in collected.iter().zip(iterated.iter()) {
        assert_eq!(c.data, i.data);
        assert_eq!(c.offset, i.offset);
    }
}

#[test]
fn test_rabin_deterministic() {
    let chunker = RabinChunker::new(test_config());
    let data: Vec<u8> = (0..5000).map(|i| (i % 256) as u8).collect();

    let chunks1 = chunker.chunk(&data);
    let chunks2 = chunker.chunk(&data);

    assert_eq!(chunks1.len(), chunks2.len());
    for (c1, c2) in chunks1.iter().zip(chunks2.iter()) {
        assert_eq!(c1.data, c2.data);
        assert_eq!(c1.offset, c2.offset);
    }
}

#[test]
fn test_rabin_content_defined_behavior() {
    let chunker = RabinChunker::new(test_config());

    let common_block: Vec<u8> = (0..500).map(|i| (i * 3 % 256) as u8).collect();

    let mut file1 = vec![0u8; 1000];
    file1.extend(&common_block);
    file1.extend(vec![1u8; 1000]);

    let mut file2 = vec![2u8; 2000];
    file2.extend(&common_block);
    file2.extend(vec![3u8; 500]);

    let chunks1 = chunker.chunk(&file1);
    let chunks2 = chunker.chunk(&file2);

    let cids1: std::collections::HashSet<_> = chunks1
        .iter()
        .map(|c| c.to_chunk_ref().cid.to_cid_string())
        .collect();
    let cids2: std::collections::HashSet<_> = chunks2
        .iter()
        .map(|c| c.to_chunk_ref().cid.to_cid_string())
        .collect();

    let common = cids1.intersection(&cids2).count();
    println!(
        "File1: {} chunks, File2: {} chunks, Common: {}",
        cids1.len(),
        cids2.len(),
        common
    );
}

#[test]
fn rabin_iterator_matches_collect() {
    let chunker = RabinChunker::new(test_config());
    let data: Vec<u8> = (0..7000).map(|i| (i * 7 % 251) as u8).collect();
    let collected = chunker.chunk(&data);
    let iterated = drain(Chunker::chunk_iter(&chunker, &data));
    assert_eq!(collected, iterated);
}

#[test]
fn fixed_iterator_cuts_exact_pieces() {
    let chunker = FixedChunker::with_size(4);
    let data: Vec<u8> = (0u8..10).collect();
    let mut it = Chunker::chunk_iter(&chunker, &data);
    let first = it.next().unwrap();
    assert_eq!(first.data, vec![0, 1, 2, 3]);
    assert_eq!(first.offset, 0);
    let second = it.next().unwrap();
    assert_eq!(second.data, vec![4, 5, 6, 7]);
    assert_eq!(second.offset, 4);
    let third = it.next().unwrap();
    assert_eq!(third.data, vec![8, 9]);
    assert_eq!(third.offset, 8);
    assert!(it.next().is_none());
    assert!(it.next().is_none());
}

#[test]
fn empty_input_iterates_nothing() {
    let data: Vec<u8> = Vec::new();
    assert!(Chunker::chunk_iter(&FixedChunker::with_size(4), &data).next().is_none());
    assert!(Chunker::chunk_iter(&FastCdcChunker::new(test_config()), &data).next().is_none());
    assert!(Chunker::chunk_iter(&RabinChunker::new(test_config()), &data).next().is_none());
}

#[test]
fn algorithm_names_parse_back_in_any_case() {
    for a in [ChunkingAlgorithm::Fixed, ChunkingAlgorithm::FastCdc, ChunkingAlgorithm::Rabin] {
        assert_eq!(ChunkingAlgorithm::from_str(a.name()), Some(a));
        assert_eq!(ChunkingAlgorithm::from_str(&a.name().to_uppercase()), Some(a));
    }
    assert_eq!(ChunkingAlgorithm::from_str("Fast-CDC"), Some(ChunkingAlgorithm::FastCdc));
    assert_eq!(ChunkingAlgorithm::from_str("gear"), None);
}

#[test]
fn rabin_chunks_end_at_the_boundary_of_the_rest() {
    let data: Vec<u8> = (0..200_000u32).map(|i| (i.wrapping_mul(2654435761) >> 13) as u8).collect();
    let config = ChunkingConfig::new(1024, 4096, 16384);
    let chunker = RabinChunker::new(config);
    let chunks = chunker.chunk(&data);
    assert!(chunks.len() > 1);
    for c in &chunks {
        let rest = &data[c.offset as usize..];
        let n = chunker.rabin_core().find_boundary(rest, config.min_size, config.max_size);
        assert_eq!(c.size(), n);
    }
}
