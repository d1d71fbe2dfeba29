use winpipe::error::WinpipeError;
use winpipe::render::{
    frame_for_stream, gradient_frame, FrameDecoder, PixelFormat, RenderFrame, FRAME_MAGIC,
    HEADER_SIZE,
};

fn invalid_message_text(r: Result<RenderFrame, WinpipeError>) -> String {
    match r {
        Err(WinpipeError::InvalidMessage(text)) => text,
        other => panic!("expected an invalid-message error, got {:?}", other),
    }
}

fn assert_same(a: &RenderFrame, b: &RenderFrame) {
    assert_eq!(a.width, b.width);
    assert_eq!(a.height, b.height);
    assert_eq!(a.format, b.format);
    assert_eq!(a.data, b.data);
}

#[test]
fn test_frame_encode_decode() {
    let frame = RenderFrame::new(100, 100, PixelFormat::ARGB8888, vec![0xFF; 100 * 100 * 4]);

    let encoded = frame.encode();
    let decoded = RenderFrame::decode(&encoded).unwrap();

    assert_eq!(decoded.width, 100);
    assert_eq!(decoded.height, 100);
    assert_eq!(decoded.format, PixelFormat::ARGB8888);
    assert_eq!(decoded.data.len(), 100 * 100 * 4);
}

#[test]
fn test_frame_decoder_streaming() {
    let mut decoder = FrameDecoder::new();

    let frame = RenderFrame::new(10, 10, PixelFormat::XRGB8888, vec![0u8; 400]);
    let data = frame.encode();

    // Push partial data
    decoder.push(&data[..10]);
    assert!(decoder.decode().is_none());

    // Push rest
    decoder.push(&data[10..]);
    let decoded = decoder.decode().unwrap();
    assert_eq!(decoded.width, 10);
}

#[test]
fn frame_constants_are_exact() {
    assert_eq!(HEADER_SIZE, 20);
    assert_eq!(FRAME_MAGIC, b"WPRD");
    assert_eq!(FRAME_MAGIC, &[0x57, 0x50, 0x52, 0x44]);
    // read as one little-endian word
    assert_eq!(u32::from_le_bytes(*FRAME_MAGIC), 0x4452_5057);
}

#[test]
fn format_codes() {
    assert_eq!(PixelFormat::ARGB8888.code(), 0);
    assert_eq!(PixelFormat::XRGB8888.code(), 1);
    assert_eq!(PixelFormat::from_code(0), PixelFormat::ARGB8888);
    assert_eq!(PixelFormat::from_code(1), PixelFormat::XRGB8888);
    assert_eq!(PixelFormat::from_code(2), PixelFormat::ARGB8888);
    assert_eq!(PixelFormat::from_code(0xFFFF_FFFF), PixelFormat::ARGB8888);
}

#[test]
fn frame_encode_lays_out_the_header() {
    let frame = RenderFrame::new(0x0102_0304, 2, PixelFormat::XRGB8888, vec![9, 8, 7]);
    assert_eq!(
        frame.encode(),
        vec![
            b'W', b'P', b'R', b'D', // magic
            4, 3, 2, 1, // width
            2, 0, 0, 0, // height
            1, 0, 0, 0, // format
            3, 0, 0, 0, // data size
            9, 8, 7,
        ]
    );
    let empty = RenderFrame::new(0, 0, PixelFormat::ARGB8888, vec![]);
    assert_eq!(empty.encode().len(), 20);
}

#[test]
fn frame_round_trip_is_exact() {
    let data: Vec<u8> = (0..1000u32).map(|i| (i * 7 % 256) as u8).collect();
    for format in [PixelFormat::ARGB8888, PixelFormat::XRGB8888] {
        let frame = RenderFrame::new(0xFFFF_FFFF, 0, format, data.clone());
        let back = RenderFrame::decode(&frame.encode()).unwrap();
        assert_same(&back, &frame);
    }
}

#[test]
fn frame_decode_maps_unknown_formats_to_argb() {
    let mut encoded = RenderFrame::new(1, 1, PixelFormat::XRGB8888, vec![1, 2, 3, 4]).encode();
    encoded[12] = 7;
    let back = RenderFrame::decode(&encoded).unwrap();
    assert_eq!(back.format, PixelFormat::ARGB8888);
    assert_eq!(back.data, vec![1, 2, 3, 4]);
}

#[test]
fn frame_decode_ignores_what_follows() {
    let mut encoded = RenderFrame::new(3, 4, PixelFormat::ARGB8888, vec![5; 6]).encode();
    encoded.extend_from_slice(&[0xAA; 9]);
    let back = RenderFrame::decode(&encoded).unwrap();
    assert_eq!(back.width, 3);
    assert_eq!(back.height, 4);
    assert_eq!(back.data, vec![5; 6]);
}

#[test]
fn frame_decode_errors() {
    assert_eq!(
        invalid_message_text(RenderFrame::decode(&[b'W', b'P', b'R', b'D', 0, 0])),
        "Frame too short"
    );
    let mut bad_magic = RenderFrame::new(1, 1, PixelFormat::ARGB8888, vec![]).encode();
    bad_magic[3] = b'X';
    assert_eq!(
        invalid_message_text(RenderFrame::decode(&bad_magic)),
        "Invalid frame magic"
    );
    let whole = RenderFrame::new(1, 1, PixelFormat::ARGB8888, vec![1, 2, 3, 4]).encode();
    assert_eq!(
        invalid_message_text(RenderFrame::decode(&whole[..23])),
        "Incomplete frame data"
    );
    // a size field of 2^32 - 1
    let mut huge = RenderFrame::new(1, 1, PixelFormat::ARGB8888, vec![]).encode();
    huge[16..20].copy_from_slice(&[0xFF; 4]);
    assert_eq!(
        invalid_message_text(RenderFrame::decode(&huge)),
        "Incomplete frame data"
    );
}

#[test]
fn pixel_frame_resync() {
    let frame = RenderFrame::new(2, 2, PixelFormat::XRGB8888, (0..16u8).collect());
    let mut decoder = FrameDecoder::new();
    decoder.push(&[0xDE, 0xAD, 0xBE, 0xEF]);
    decoder.push(&frame.encode());
    // the first attempt drops the garbage
    assert!(decoder.decode().is_none());
    let got = decoder.decode().unwrap();
    assert_same(&got, &frame);
    // and only that frame
    assert!(decoder.decode().is_none());
    assert!(decoder.decode().is_none());
}

#[test]
fn resync_with_garbage_that_ends_like_a_magic() {
    let frame = RenderFrame::new(1, 1, PixelFormat::ARGB8888, vec![1, 2, 3, 4]);
    for garbage in [&b"W"[..], &b"WP"[..], &b"WPR"[..], &b"xxWPRxWPWPR"[..]] {
        let mut decoder = FrameDecoder::default();
        decoder.push(garbage);
        decoder.push(&frame.encode());
        decoder.push(&[0x55; 3]);
        assert!(decoder.decode().is_none());
        let got = decoder.decode().unwrap();
        assert_same(&got, &frame);
        // what follows the frame stays: three octets, not yet a header
        assert!(decoder.decode().is_none());
    }
}

#[test]
fn garbage_that_holds_a_magic_can_swallow_the_frame() {
    // a magic followed by a header that announces more than ever comes
    let mut garbage = b"WPRD".to_vec();
    garbage.extend_from_slice(&[0xFF; 16]);
    let frame = RenderFrame::new(1, 1, PixelFormat::ARGB8888, vec![1, 2, 3, 4]);
    let mut decoder = FrameDecoder::new();
    decoder.push(&garbage);
    decoder.push(&frame.encode());
    assert!(decoder.decode().is_none());
    assert!(decoder.decode().is_none());
}

#[test]
fn frame_decoder_drops_everything_without_a_magic() {
    let mut decoder = FrameDecoder::new();
    decoder.push(&[0x11; 40]);
    assert!(decoder.decode().is_none());
    // nothing of the noise is left in front of the frame that comes next
    let frame = RenderFrame::new(5, 6, PixelFormat::ARGB8888, vec![7; 8]);
    decoder.push(&frame.encode());
    let got = decoder.decode().unwrap();
    assert_same(&got, &frame);
}

#[test]
fn frame_decoder_waits_below_a_header() {
    let mut decoder = FrameDecoder::new();
    // nineteen octets of noise: less than a header, so nothing is dropped yet
    decoder.push(&[0x11; 19]);
    assert!(decoder.decode().is_none());
    let frame = RenderFrame::new(5, 6, PixelFormat::ARGB8888, vec![7; 8]);
    decoder.push(&frame.encode());
    assert!(decoder.decode().is_none());
    let got = decoder.decode().unwrap();
    assert_same(&got, &frame);
}

#[test]
fn frame_decoder_takes_frames_back_to_back() {
    let a = RenderFrame::new(1, 2, PixelFormat::ARGB8888, vec![1; 5]);
    let b = RenderFrame::new(3, 4, PixelFormat::XRGB8888, vec![]);
    let c = RenderFrame::new(5, 6, PixelFormat::ARGB8888, vec![2; 50]);
    let mut stream = a.encode();
    stream.extend_from_slice(&b.encode());
    stream.extend_from_slice(&c.encode());
    let mut decoder = FrameDecoder::new();
    let mut got = Vec::new();
    for chunk in stream.chunks(7) {
        decoder.push(chunk);
        while let Some(frame) = decoder.decode() {
            got.push(frame);
        }
    }
    assert_eq!(got.len(), 3);
    assert_same(&got[0], &a);
    assert_same(&got[1], &b);
    assert_same(&got[2], &c);
}

#[test]
fn frame_for_stream_needs_a_connection() {
    let frame = RenderFrame::new(1, 1, PixelFormat::ARGB8888, vec![1, 2, 3, 4]);
    assert_eq!(frame_for_stream(true, &frame).unwrap(), frame.encode());
    match frame_for_stream(false, &frame) {
        Err(WinpipeError::Protocol(text)) => assert_eq!(text, "Not connected"),
        other => panic!("expected a protocol error, got {:?}", other),
    }
}

#[test]
fn a_magic_cut_off_from_its_frame_is_dropped_with_the_garbage() {
    let frame = RenderFrame::new(1, 1, PixelFormat::ARGB8888, vec![1, 2, 3, 4]);
    let encoded = frame.encode();
    let mut decoder = FrameDecoder::new();
    // twenty octets of noise and the first half of the magic
    decoder.push(&[0x11; 20]);
    decoder.push(&encoded[..2]);
    assert!(decoder.decode().is_none());
    // the rest of the frame no longer starts with a magic
    decoder.push(&encoded[2..]);
    assert!(decoder.decode().is_none());
    assert!(decoder.decode().is_none());
    // a frame that arrives whole afterwards comes out
    decoder.push(&encoded);
    let got = decoder.decode().unwrap();
    assert_same(&got, &frame);
}

#[test]
fn gradient_frame_pixels() {
    let frame = gradient_frame(2, 3);
    assert_eq!(frame.width, 2);
    assert_eq!(frame.height, 3);
    assert_eq!(frame.format, PixelFormat::ARGB8888);
    assert_eq!(
        frame.data,
        vec![
            128, 0, 0, 255, 128, 0, 127, 255, // row 0
            128, 85, 0, 255, 128, 85, 127, 255, // row 1
            128, 170, 0, 255, 128, 170, 127, 255, // row 2
        ]
    );
    let big = gradient_frame(200, 200);
    assert_eq!(big.data.len(), 200 * 200 * 4);
    // the last pixel
    assert_eq!(&big.data[big.data.len() - 4..], &[128, 253, 253, 255]);
    assert!(gradient_frame(0, 5).data.is_empty());
    assert!(gradient_frame(5, 0).data.is_empty());
}
