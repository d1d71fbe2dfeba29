use winpipe::compress::{CompressedFrame, CompressionLevel, Compressor};
use winpipe::error::WinpipeError;
use winpipe::lz4::{can_compress, MAX_BLOCK_INPUT};

#[test]
fn test_compress_decompress() {
    let mut compressor = Compressor::new(CompressionLevel::Fast);

    let original = b"Hello, World! This is a test of LZ4 compression. \
                     Let's add some repetitive content: aaaaaaaaaaaaaaaa";

    let compressed = compressor.compress(original);

    let mut decompressor = Compressor::new(CompressionLevel::Fast);
    let decompressed = decompressor.decompress(&compressed).unwrap();

    assert_eq!(decompressed, original);
}

#[test]
fn test_compressed_frame() {
    let data = vec![1, 2, 3, 4, 5];
    let frame = CompressedFrame::new(data.clone(), 100);

    let encoded = frame.encode();
    let decoded = CompressedFrame::decode(&encoded).unwrap();

    assert_eq!(decoded.compressed_size, 5);
    assert_eq!(decoded.uncompressed_size, 100);
    assert_eq!(decoded.data, data);
}

#[test]
fn default_level_is_fast() {
    assert_eq!(CompressionLevel::default(), CompressionLevel::Fast);
    assert_eq!(Compressor::default().level(), CompressionLevel::Fast);
    assert_eq!(Compressor::new(CompressionLevel::High).level(), CompressionLevel::High);
}

#[test]
fn without_compression_octets_pass_through() {
    let mut c = Compressor::new(CompressionLevel::Off);
    assert_eq!(c.compress(&[1, 2, 3]), vec![1, 2, 3]);
    assert_eq!(c.decompress(&[4, 5]).unwrap(), vec![4, 5]);
    assert_eq!(c.compress(&[]), Vec::<u8>::new());
    let stats = c.stats();
    assert_eq!(stats.bytes_in, 5);
    assert_eq!(stats.bytes_out, 5);
    assert_eq!(stats.messages, 3);
}

#[test]
fn compressed_output_starts_with_the_plain_size() {
    let input: Vec<u8> = vec![7; 300];
    for level in [CompressionLevel::Fast, CompressionLevel::High] {
        let mut c = Compressor::new(level);
        let out = c.compress(&input);
        assert_eq!(&out[..4], &[44, 1, 0, 0]);
        // three hundred equal octets shrink
        assert!(out.len() < input.len());
        assert_ne!(out, input);
        let stats = c.stats();
        assert_eq!(stats.bytes_in, 300);
        assert_eq!(stats.bytes_out, out.len() as u64);
        assert_eq!(stats.messages, 1);
    }
    let mut c = Compressor::new(CompressionLevel::Fast);
    assert_eq!(&c.compress(&[])[..4], &[0, 0, 0, 0]);
}

#[test]
fn decompress_expands_what_compress_made() {
    let input: Vec<u8> = (0..5000u32).map(|i| (i % 13) as u8).collect();
    let mut c = Compressor::new(CompressionLevel::High);
    let packed = c.compress(&input);
    let mut d = Compressor::new(CompressionLevel::Fast);
    let plain = d.decompress(&packed).unwrap();
    assert_eq!(plain, input);
    assert_ne!(plain, packed);
    let stats = d.stats();
    assert_eq!(stats.bytes_in, packed.len() as u64);
    assert_eq!(stats.bytes_out, 5000);
    assert_eq!(stats.messages, 1);
}

#[test]
fn decompress_reports_what_does_not_expand() {
    let mut d = Compressor::new(CompressionLevel::Fast);
    // too short for the size in front
    match d.decompress(&[1, 2]) {
        Err(WinpipeError::Compression(text)) => assert!(!text.is_empty()),
        other => panic!("expected a compression error, got {:?}", other),
    }
    // announces ten octets and holds a literal run that is not there
    match d.decompress(&[10, 0, 0, 0, 0xF0, 0xFF]) {
        Err(WinpipeError::Compression(_)) => {}
        other => panic!("expected a compression error, got {:?}", other),
    }
    // the calls are counted, their output is not
    let stats = d.stats();
    assert_eq!(stats.bytes_in, 8);
    assert_eq!(stats.bytes_out, 0);
    assert_eq!(stats.messages, 2);
}

#[test]
fn stats_add_up_and_reset() {
    let mut c = Compressor::new(CompressionLevel::Off);
    assert_eq!(c.stats().bytes_in, 0);
    assert_eq!(c.stats().bytes_out, 0);
    assert_eq!(c.stats().messages, 0);
    c.compress(&[0; 10]);
    c.compress(&[0; 20]);
    assert_eq!(c.stats().bytes_in, 30);
    assert_eq!(c.stats().bytes_out, 30);
    assert_eq!(c.stats().messages, 2);
    c.reset_stats();
    assert_eq!(c.stats().bytes_in, 0);
    assert_eq!(c.stats().bytes_out, 0);
    assert_eq!(c.stats().messages, 0);
    assert_eq!(c.level(), CompressionLevel::Off);
}

#[test]
fn compressed_frame_layout() {
    let frame = CompressedFrame::new(vec![0xAA, 0xBB], 0x0102_0304);
    assert_eq!(frame.compressed_size, 2);
    assert_eq!(frame.uncompressed_size, 0x0102_0304);
    assert_eq!(frame.wire_size(), 10);
    assert_eq!(frame.encode(), vec![2, 0, 0, 0, 4, 3, 2, 1, 0xAA, 0xBB]);
    let empty = CompressedFrame::new(vec![], 0);
    assert_eq!(empty.encode(), vec![0; 8]);
    assert_eq!(empty.wire_size(), 8);
}

#[test]
fn compressed_frame_decode_takes_the_announced_octets() {
    let data = [3, 0, 0, 0, 9, 0, 0, 0, 1, 2, 3, 4, 5];
    let frame = CompressedFrame::decode(&data).unwrap();
    assert_eq!(frame.compressed_size, 3);
    assert_eq!(frame.uncompressed_size, 9);
    assert_eq!(frame.data, vec![1, 2, 3]);
}

#[test]
fn compressed_frame_decode_errors() {
    match CompressedFrame::decode(&[1, 2, 3, 4, 5, 6, 7]) {
        Err(WinpipeError::InvalidMessage(text)) => assert_eq!(text, "Frame too short"),
        other => panic!("expected an invalid-message error, got {:?}", other),
    }
    match CompressedFrame::decode(&[5, 0, 0, 0, 0, 0, 0, 0, 1, 2]) {
        Err(WinpipeError::InvalidMessage(text)) => {
            assert_eq!(text, "Incomplete frame: have 10, need 13")
        }
        other => panic!("expected an invalid-message error, got {:?}", other),
    }
    match CompressedFrame::decode(&[0xFF, 0xFF, 0xFF, 0xFF, 0, 0, 0, 0]) {
        Err(WinpipeError::InvalidMessage(text)) => {
            assert_eq!(text, "Incomplete frame: have 8, need 4294967303")
        }
        other => panic!("expected an invalid-message error, got {:?}", other),
    }
}

#[test]
fn nothing_compressed_expands_to_nothing() {
    let mut c = Compressor::new(CompressionLevel::Fast);
    let packed = c.compress(&[]);
    assert_eq!(&packed[..4], &[0, 0, 0, 0]);
    let mut d = Compressor::new(CompressionLevel::Fast);
    assert_eq!(d.decompress(&packed).unwrap(), Vec::<u8>::new());
}

#[test]
fn what_compress_makes_expands_to_the_input() {
    let mut x: u32 = 7;
    for len in [1usize, 2, 11, 12, 13, 64, 255, 256, 4096, 70000] {
        let mut noise = Vec::with_capacity(len);
        for _ in 0..len {
            x = x.wrapping_mul(1664525).wrapping_add(1013904223);
            noise.push((x >> 24) as u8);
        }
        let even = vec![0xABu8; len];
        for input in [noise, even] {
            for level in [CompressionLevel::Off, CompressionLevel::Fast, CompressionLevel::High] {
                let packed = Compressor::new(level).compress(&input);
                let plain = Compressor::new(level).decompress(&packed).unwrap();
                assert_eq!(plain, input);
            }
        }
    }
}

#[test]
fn compressible_lengths() {
    assert!(can_compress(0));
    assert!(can_compress(0x80_0000));
    assert!(can_compress(usize::MAX / 110));
    assert!(!can_compress(usize::MAX / 110 + 1));
    assert!(!can_compress(usize::MAX));
    assert_eq!(MAX_BLOCK_INPUT, 8 * 1024 * 1024);
}

#[test]
fn compress_takes_more_than_the_expansion_limit() {
    // nine megabytes of one octet shrink to a few kilobytes
    let input = vec![0x5Au8; 9 * 1024 * 1024];
    let mut c = Compressor::new(CompressionLevel::Fast);
    let packed = c.compress(&input);
    assert_eq!(&packed[..4], &[0, 0, 0x90, 0]);
    assert!(packed.len() < MAX_BLOCK_INPUT);
    let plain = Compressor::new(CompressionLevel::Fast).decompress(&packed).unwrap();
    assert_eq!(plain.len(), input.len());
    assert!(plain == input);
}
