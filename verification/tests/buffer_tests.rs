use swapvec::BatchInfo;
use swapvec::Compression;
use swapvec::CompressionLevel;
use swapvec::SwapVec;
use swapvec::SwapVecConfig;
use swapvec::SwapVecError;
use swapvec::compress_with;
use swapvec::decode_batch;
use swapvec::decompress_with;
use swapvec::digest;

fn config(batch_size: usize, swap_after: usize, compression: Option<Compression>) -> SwapVecConfig {
    SwapVecConfig { swap_after, batch_size, compression }
}

fn replay(buffer: SwapVec) -> Vec<u64> {
    let mut iter = buffer.into_iter();
    let mut out = Vec::new();
    while let Some(item) = iter.next() {
        out.push(item.expect("replay failed"));
    }
    out
}

#[test]
fn defaults_are_documented_values() {
    let cfg = SwapVecConfig::default();
    assert_eq!(cfg.swap_after, 32 * 1024 * 1024);
    assert_eq!(cfg.batch_size, 32 * 1024);
    assert!(cfg.compression.is_none());
}

#[test]
fn order_preserved_across_spill() {
    let mut buffer = SwapVec::with_config(config(4, 4, None));
    let input: Vec<u64> = (0..100).collect();
    buffer.consume(input.clone()).unwrap();
    assert!(buffer.written_to_file());
    assert_eq!(replay(buffer), input);
}

#[test]
fn order_preserved_without_spill() {
    let mut buffer = SwapVec::default();
    let input: Vec<u64> = (0..9).collect();
    buffer.consume(input.clone()).unwrap();
    buffer.push(99).unwrap();
    assert!(!buffer.written_to_file());
    let mut expected = input;
    expected.push(99);
    assert_eq!(replay(buffer), expected);
}

#[test]
fn fifth_insertion_triggers_exactly_one_flush() {
    let mut buffer = SwapVec::with_config(config(4, 4, None));
    for v in 0..4u64 {
        buffer.push(v).unwrap();
        assert!(!buffer.written_to_file());
        assert_eq!(buffer.batches_written(), 0);
    }
    buffer.push(4).unwrap();
    assert!(buffer.written_to_file());
    assert_eq!(buffer.batches_written(), 1);
    assert_eq!(buffer.elements_in_ram(), 1);
    assert_eq!(replay(buffer), vec![0, 1, 2, 3, 4]);
}

#[test]
fn below_threshold_never_touches_disk() {
    let mut buffer = SwapVec::with_config(config(1000, 1000, None));
    for v in 0..10u64 {
        buffer.push(v).unwrap();
    }
    assert!(!buffer.written_to_file());
    assert_eq!(buffer.file_size(), None);
    assert_eq!(buffer.batches_written(), 0);
    assert_eq!(buffer.elements_in_ram(), 10);
}

#[test]
fn file_size_reports_written_bytes() {
    let mut buffer = SwapVec::with_config(config(4, 4, None));
    for v in 0..9u64 {
        buffer.push(v).unwrap();
    }
    assert_eq!(buffer.batches_written(), 2);
    let size = buffer.file_size().expect("spilled buffer has a size");
    assert!(size > 0);
}

#[test]
fn repeated_flushes_keep_order() {
    let mut buffer = SwapVec::with_config(config(3, 5, None));
    let input: Vec<u64> = (0..20).collect();
    for &v in &input {
        buffer.push(v).unwrap();
    }
    assert_eq!(buffer.batches_written(), 6);
    assert_eq!(buffer.elements_in_ram(), 2);
    assert_eq!(replay(buffer), input);
}

#[test]
fn round_trip_values_equal_inserted() {
    let mut buffer = SwapVec::with_config(config(2, 2, None));
    let input: Vec<u64> = vec![7, 0, u64::MAX, 42, 42, 1];
    buffer.consume(input.clone()).unwrap();
    assert!(buffer.written_to_file());
    assert_eq!(replay(buffer), input);
}

#[test]
fn compression_selectors_are_transparent() {
    let input: Vec<u64> = (0..333).map(|v| v % 7).collect();
    let selectors = vec![
        None,
        Some(Compression::Lz4),
        Some(Compression::Deflate(CompressionLevel::Slow)),
        Some(Compression::Deflate(CompressionLevel::Default)),
        Some(Compression::Deflate(CompressionLevel::Fast)),
    ];
    for selector in selectors {
        let mut buffer = SwapVec::with_config(config(16, 16, selector));
        buffer.consume(input.clone()).unwrap();
        assert!(buffer.written_to_file());
        assert_eq!(replay(buffer), input, "selector {:?} changed the data", selector);
    }
}

#[test]
fn drained_iterator_stays_empty() {
    let mut buffer = SwapVec::with_config(config(4, 4, None));
    buffer.consume((0..10).collect()).unwrap();
    let mut iter = buffer.into_iter();
    let mut count = 0;
    while let Some(item) = iter.next() {
        item.unwrap();
        count += 1;
    }
    assert_eq!(count, 10);
    assert!(iter.next().is_none());
    assert!(iter.next().is_none());
}

#[test]
fn empty_buffer_replays_empty() {
    let buffer = SwapVec::with_config(config(8, 8, None));
    assert!(!buffer.written_to_file());
    assert_eq!(buffer.file_size(), None);
    let mut iter = buffer.into_iter();
    assert!(iter.next().is_none());
    assert!(iter.next().is_none());
}

#[test]
fn read_all_returns_everything_in_order() {
    let mut buffer = SwapVec::with_config(config(4, 4, Some(Compression::Lz4)));
    let input: Vec<u64> = (0..50).collect();
    buffer.consume(input.clone()).unwrap();
    let mut iter = buffer.into_iter();
    assert_eq!(iter.read_all().unwrap(), input);
    assert!(iter.next().is_none());
}

#[test]
fn digest_changes_on_every_single_byte_flip() {
    let bytes: Vec<u8> = (0..64).map(|v| (v * 3) as u8).collect();
    let original = digest(&bytes);
    for i in 0..bytes.len() {
        let mut corrupted = bytes.clone();
        corrupted[i] ^= 0x20;
        assert_ne!(digest(&corrupted), original, "flip at {} went undetected", i);
    }
}

#[test]
fn decode_batch_round_trips_through_real_codecs() {
    let batch: Vec<u64> = vec![1, 2, 3, 500, u64::MAX];
    let encoded = bincode::serialize(&batch).unwrap();
    for selector in vec![
        None,
        Some(Compression::Lz4),
        Some(Compression::Deflate(CompressionLevel::Default)),
    ] {
        let image = compress_with(&selector, encoded.clone());
        let info = BatchInfo { hash: digest(&image), bytes: image.len() };
        let decoded = decode_batch(&image, &info, &selector).unwrap();
        assert_eq!(decoded, batch);
    }
}

#[test]
fn decompress_inverts_compress() {
    let data: Vec<u8> = (0..200).map(|v| (v % 11) as u8).collect();
    for selector in vec![
        None,
        Some(Compression::Lz4),
        Some(Compression::Deflate(CompressionLevel::Slow)),
        Some(Compression::Deflate(CompressionLevel::Fast)),
    ] {
        let packed = compress_with(&selector, data.clone());
        assert_eq!(decompress_with(&selector, &packed).unwrap(), data);
    }
}

#[test]
fn corrupted_batch_image_fails_with_wrong_checksum() {
    let batch: Vec<u64> = (0..32).collect();
    let encoded = bincode::serialize(&batch).unwrap();
    let image = compress_with(&Some(Compression::Lz4), encoded);
    let info = BatchInfo { hash: digest(&image), bytes: image.len() };
    for i in 0..image.len() {
        let mut corrupted = image.clone();
        corrupted[i] ^= 0x01;
        let result = decode_batch(&corrupted, &info, &Some(Compression::Lz4));
        assert!(
            matches!(result, Err(SwapVecError::WrongChecksum)),
            "corruption at byte {} was not flagged",
            i
        );
    }
}

#[test]
fn truncated_batch_image_fails_with_wrong_checksum() {
    let batch: Vec<u64> = (0..8).collect();
    let encoded = bincode::serialize(&batch).unwrap();
    let image = compress_with(&None, encoded);
    let info = BatchInfo { hash: digest(&image), bytes: image.len() };
    let mut truncated = image.clone();
    truncated.pop();
    let result = decode_batch(&truncated, &info, &None);
    assert!(matches!(result, Err(SwapVecError::WrongChecksum)));
}

#[test]
fn undecodable_batch_fails_with_serialization_error() {
    let garbage: Vec<u8> = vec![1, 2, 3];
    let info = BatchInfo { hash: digest(&garbage), bytes: garbage.len() };
    let result = decode_batch(&garbage, &info, &None);
    assert!(matches!(result, Err(SwapVecError::SerializationFailed(_))));
}

#[test]
fn zero_thresholds_are_raised_to_one() {
    let mut buffer = SwapVec::with_config(config(0, 0, None));
    let input: Vec<u64> = (0..6).collect();
    buffer.consume(input.clone()).unwrap();
    assert_eq!(buffer.config().batch_size, 1);
    assert_eq!(buffer.config().swap_after, 1);
    assert_eq!(replay(buffer), input);
}

#[test]
fn config_is_kept_verbatim() {
    let cfg = config(7, 20, Some(Compression::Lz4));
    let buffer = SwapVec::with_config(cfg);
    assert_eq!(buffer.config().batch_size, 7);
    assert_eq!(buffer.config().swap_after, 20);
    assert!(matches!(buffer.config().compression, Some(Compression::Lz4)));
}

#[test]
fn consume_equals_repeated_push() {
    let input: Vec<u64> = (0..40).collect();
    let mut by_consume = SwapVec::with_config(config(6, 6, None));
    by_consume.consume(input.clone()).unwrap();
    let mut by_push = SwapVec::with_config(config(6, 6, None));
    for &v in &input {
        by_push.push(v).unwrap();
    }
    assert_eq!(by_consume.batches_written(), by_push.batches_written());
    assert_eq!(replay(by_consume), replay(by_push));
}
