use qoistream::chunk::{
    parse_chunk, parse_end_marker, parse_op_diff_chunk, parse_op_index_chunk, parse_op_luma_chunk,
    parse_op_run_chunk, parse_rgb_chunk, parse_rgba_chunk, ChunkParse, OpDiff, OpIndex, OpLuma,
    OpRun, RGB, RGBA,
};
use qoistream::decoder::{DecodeError, DecoderState, Pixel, Progress, RawPixel};
use qoistream::header::{parse_header, HeaderParse};
use qoistream::parser::{ParseError, ParseEvent, QOIParser};
use qoistream::{decode_bytes, decode_with_reads, QOIChunk, QOIDecoder, QOIHeader, QoiError};

const END: [u8; 8] = [0, 0, 0, 0, 0, 0, 0, 1];

fn header_bytes(width: u32, height: u32, channels: u8, colorspace: u8) -> Vec<u8> {
    let mut v = b"qoif".to_vec();
    v.extend_from_slice(&width.to_be_bytes());
    v.extend_from_slice(&height.to_be_bytes());
    v.push(channels);
    v.push(colorspace);
    v
}

fn stream(width: u32, height: u32, chunks: &[u8]) -> Vec<u8> {
    let mut v = header_bytes(width, height, 4, 0);
    v.extend_from_slice(chunks);
    v.extend_from_slice(&END);
    v
}

fn raw(p: &RawPixel) -> [u8; 4] {
    p.bytes()
}

#[test]
fn it_works() {
    let result = 2 + 2;
    assert_eq!(result, 4);
}

#[test]
fn header_round_trip() {
    let mut bytes = header_bytes(640, 480, 3, 1);
    bytes.push(0xfe);
    match parse_header(&bytes) {
        HeaderParse::Parsed(h, n) => {
            assert_eq!(n, 14);
            assert_eq!(h.width(), 640);
            assert_eq!(h.height(), 480);
            assert_eq!(h.channels(), 3);
            assert_eq!(h.colorspace(), 1);
            assert_eq!(h, QOIHeader::new(640, 480, 3, 1));
        }
        other => panic!("unexpected {:?}", other),
    }
}

#[test]
fn header_large_values() {
    let bytes = header_bytes(0x0102_0304, 0xffff_fffe, 4, 0);
    assert_eq!(
        parse_header(&bytes),
        HeaderParse::Parsed(QOIHeader::new(0x0102_0304, 0xffff_fffe, 4, 0), 14)
    );
}

#[test]
fn header_bad_magic_and_short() {
    assert_eq!(parse_header(b"qoix"), HeaderParse::Malformed);
    assert_eq!(parse_header(b"qo"), HeaderParse::Incomplete(12));
    assert_eq!(parse_header(b""), HeaderParse::Incomplete(14));
}

#[test]
fn grammar_rgb() {
    let c = QOIChunk::RGB(RGB { r: 10, g: 20, b: 30 });
    assert_eq!(parse_rgb_chunk(&[0b11111110, 10, 20, 30]), ChunkParse::Parsed(c, 4));
    assert_eq!(parse_chunk(&[0b11111110, 10, 20, 30]), ChunkParse::Parsed(c, 4));
}

#[test]
fn grammar_rgba() {
    let c = QOIChunk::RGBA(RGBA { r: 1, g: 2, b: 3, a: 4 });
    assert_eq!(parse_rgba_chunk(&[0xff, 1, 2, 3, 4]), ChunkParse::Parsed(c, 5));
    assert_eq!(parse_chunk(&[0xff, 1, 2, 3, 4, 9]), ChunkParse::Parsed(c, 5));
}

#[test]
fn grammar_op_index() {
    let c = QOIChunk::OpIndex(OpIndex { index: 53 });
    assert_eq!(parse_op_index_chunk(&[53]), ChunkParse::Parsed(c, 1));
    assert_eq!(parse_chunk(&[53]), ChunkParse::Parsed(c, 1));
}

#[test]
fn grammar_op_diff() {
    let c = QOIChunk::OpDiff(OpDiff { diff_r: 1, diff_g: 1, diff_b: 1 });
    assert_eq!(parse_op_diff_chunk(&[0b01010101]), ChunkParse::Parsed(c, 1));
    assert_eq!(parse_chunk(&[0b01010101]), ChunkParse::Parsed(c, 1));
    let d = QOIChunk::OpDiff(OpDiff { diff_r: 3, diff_g: 0, diff_b: 2 });
    assert_eq!(parse_chunk(&[0b01110010]), ChunkParse::Parsed(d, 1));
}

#[test]
fn grammar_op_luma() {
    let c = QOIChunk::OpLuma(OpLuma { diff_g: 0b101010, dr_dg: 0b1100, db_dg: 0b0011 });
    assert_eq!(parse_op_luma_chunk(&[0b10101010, 0b11000011]), ChunkParse::Parsed(c, 2));
    assert_eq!(parse_chunk(&[0b10101010, 0b11000011]), ChunkParse::Parsed(c, 2));
    assert_eq!(parse_chunk(&[0b10101010]), ChunkParse::Incomplete(1));
}

#[test]
fn grammar_op_run() {
    let c = QOIChunk::OpRun(OpRun { run: 5 });
    assert_eq!(parse_op_run_chunk(&[0b11000101]), ChunkParse::Parsed(c, 1));
    assert_eq!(parse_chunk(&[0b11000101]), ChunkParse::Parsed(c, 1));
    // reserved run lengths are accepted
    assert_eq!(parse_chunk(&[0b11111101]), ChunkParse::Parsed(QOIChunk::OpRun(OpRun { run: 61 }), 1));
}

#[test]
fn grammar_end_marker() {
    assert_eq!(parse_end_marker(&END), ChunkParse::Parsed(QOIChunk::EndMarker, 8));
    assert_eq!(parse_chunk(&END), ChunkParse::Parsed(QOIChunk::EndMarker, 8));
    assert_eq!(parse_chunk(&[0, 0, 0]), ChunkParse::Incomplete(5));
    assert_eq!(parse_chunk(&[0, 7]), ChunkParse::Parsed(QOIChunk::OpIndex(OpIndex { index: 0 }), 1));
    assert_eq!(parse_chunk(&[]), ChunkParse::Incomplete(8));
}

#[test]
fn grammar_mismatch_per_recognizer() {
    assert_eq!(parse_rgb_chunk(&[0xff]), ChunkParse::Mismatch);
    assert_eq!(parse_rgb_chunk(&[0xfe, 1]), ChunkParse::Incomplete(2));
    assert_eq!(parse_rgba_chunk(&[0xfe]), ChunkParse::Mismatch);
    assert_eq!(parse_op_index_chunk(&[0x40]), ChunkParse::Mismatch);
    assert_eq!(parse_op_diff_chunk(&[0x80]), ChunkParse::Mismatch);
    assert_eq!(parse_op_luma_chunk(&[0xc0]), ChunkParse::Mismatch);
    assert_eq!(parse_op_run_chunk(&[0x00]), ChunkParse::Mismatch);
    assert_eq!(parse_end_marker(&[0, 0, 1]), ChunkParse::Mismatch);
}

#[test]
fn pixel_index_hash() {
    let p = Pixel::new(1, 2, 3, 4);
    assert_eq!(p.index(), (3 + 10 + 21 + 44) % 64);
    assert_eq!(Pixel::new(0, 0, 0, 255).index(), (255 * 11) % 64);
}

fn state_with_prev(p: Pixel) -> DecoderState {
    let mut s = DecoderState::default();
    s.prev_pixel = p;
    s
}

#[test]
fn run_expansion() {
    let prev = Pixel::new(1, 2, 3, 4);
    let mut state = state_with_prev(prev);
    state.cursor = 2;
    let mut buffer = vec![RawPixel([0, 0, 0, 255]); 10];
    let r = QOIDecoder::decode_chunk(&mut buffer, &mut state, QOIChunk::OpRun(OpRun { run: 5 }));
    assert_eq!(r, Ok(Progress::Continue));
    assert_eq!(state.cursor, 8);
    for (i, px) in buffer.iter().enumerate() {
        if (2..8).contains(&i) {
            assert_eq!(raw(px), [1, 2, 3, 4]);
        } else {
            assert_eq!(raw(px), [0, 0, 0, 255]);
        }
    }
    assert_eq!(state.cache[prev.index()], Some(prev));
}

#[test]
fn diff_and_luma_arithmetic() {
    let mut state = state_with_prev(Pixel::new(0, 100, 255, 7));
    let mut buffer = vec![RawPixel([0, 0, 0, 255]); 2];
    let r = QOIDecoder::decode_chunk(
        &mut buffer,
        &mut state,
        QOIChunk::OpDiff(OpDiff { diff_r: 0, diff_g: 3, diff_b: 3 }),
    );
    assert_eq!(r, Ok(Progress::Continue));
    assert_eq!(raw(&buffer[0]), [254, 101, 0, 7]);
    // vg = 40 - 32 = 8; r = 254 + 8 + 10 - 8; g = 101 + 8; b = 0 + 8 + 0 - 8
    let r = QOIDecoder::decode_chunk(
        &mut buffer,
        &mut state,
        QOIChunk::OpLuma(OpLuma { diff_g: 40, dr_dg: 10, db_dg: 0 }),
    );
    assert_eq!(r, Ok(Progress::Continue));
    assert_eq!(raw(&buffer[1]), [8, 109, 0, 7]);
    assert_eq!(state.prev_pixel, Pixel::new(8, 109, 0, 7));
    assert_eq!(state.cursor, 2);
}

#[test]
fn rgb_keeps_alpha_and_cache_consistent() {
    let mut state = state_with_prev(Pixel::new(0, 0, 0, 9));
    let mut buffer = vec![RawPixel([0, 0, 0, 255]); 1];
    let r = QOIDecoder::decode_chunk(&mut buffer, &mut state, QOIChunk::RGB(RGB { r: 5, g: 6, b: 7 }));
    assert_eq!(r, Ok(Progress::Continue));
    let p = Pixel::new(5, 6, 7, 9);
    assert_eq!(raw(&buffer[0]), [5, 6, 7, 9]);
    assert_eq!(state.cache[p.index()], Some(p));
}

#[test]
fn end_marker_changes_nothing() {
    let mut state = state_with_prev(Pixel::new(1, 1, 1, 1));
    let mut buffer = vec![RawPixel([0, 0, 0, 255]); 1];
    let r = QOIDecoder::decode_chunk(&mut buffer, &mut state, QOIChunk::EndMarker);
    assert_eq!(r, Ok(Progress::Finished));
    assert_eq!(state.cursor, 0);
    assert_eq!(state.cache[Pixel::new(1, 1, 1, 1).index()], None);
}

#[test]
fn overrun_in_engine() {
    let mut state = DecoderState::default();
    let mut buffer = vec![RawPixel([0, 0, 0, 255]); 3];
    let r = QOIDecoder::decode_chunk(&mut buffer, &mut state, QOIChunk::OpRun(OpRun { run: 3 }));
    assert_eq!(r, Err(DecodeError::BufferOverrun));
    assert_eq!(state.cursor, 0);
}

#[test]
fn end_to_end_single_pixel() {
    let bytes = stream(1, 1, &[0xff, 10, 20, 30, 255]);
    let (header, pixels) = decode_bytes(&bytes).unwrap();
    assert_eq!(header, QOIHeader::new(1, 1, 4, 0));
    assert_eq!(pixels.len(), 1);
    assert_eq!(raw(&pixels[0]), [10, 20, 30, 255]);
}

#[test]
fn incremental_feed_equivalence() {
    // 3x2 image: literal, diff, luma, index back to the literal, run of two
    let lit = Pixel::new(10, 20, 30, 255);
    assert_eq!(lit.index(), 9);
    let body = [0xfe, 10, 20, 30, 0b01111111, 0b10100000, 0x88, 9, 0b11000001];
    let bytes = stream(3, 2, &body);
    let whole = decode_with_reads(&bytes, bytes.len()).unwrap();
    for size in [1usize, 2, 3, 5, 7, 64] {
        let split = decode_with_reads(&bytes, size).unwrap();
        assert_eq!(split.0, whole.0);
        let a: Vec<[u8; 4]> = whole.1.iter().map(raw).collect();
        let b: Vec<[u8; 4]> = split.1.iter().map(raw).collect();
        assert_eq!(a, b);
    }
    let a: Vec<[u8; 4]> = whole.1.iter().map(raw).collect();
    assert_eq!(
        a,
        vec![[10, 20, 30, 255], [11, 21, 31, 255], [11, 21, 31, 255], [10, 20, 30, 255], [10, 20, 30, 255], [10, 20, 30, 255]]
    );
}

#[test]
fn overrun_detection() {
    let bytes = stream(1, 1, &[0xff, 1, 2, 3, 4, 0xff, 5, 6, 7, 8]);
    assert_eq!(decode_bytes(&bytes).unwrap_err(), QoiError::Decode(DecodeError::BufferOverrun));
    let bytes = stream(2, 1, &[0b11000010]);
    assert_eq!(decode_bytes(&bytes).unwrap_err(), QoiError::Decode(DecodeError::BufferOverrun));
}

#[test]
fn invalid_index_detection() {
    let bytes = stream(2, 1, &[5, 0xff, 1, 2, 3, 4]);
    assert_eq!(
        decode_bytes(&bytes).unwrap_err(),
        QoiError::Decode(DecodeError::InvalidCacheReference)
    );
}

#[test]
fn malformed_header_errors() {
    let mut bytes = stream(1, 1, &[0xff, 1, 2, 3, 4]);
    bytes[0] = b'Q';
    assert_eq!(decode_bytes(&bytes).unwrap_err(), QoiError::Parse(ParseError::MalformedHeader));
    assert_eq!(decode_bytes(b"qoif\0\0").unwrap_err(), QoiError::Parse(ParseError::MalformedHeader));
}

#[test]
fn missing_end_marker() {
    let mut bytes = header_bytes(1, 1, 4, 0);
    bytes.extend_from_slice(&[0xff, 1, 2, 3, 4, 0, 0]);
    assert_eq!(
        decode_bytes(&bytes).unwrap_err(),
        QoiError::Parse(ParseError::UnexpectedEndOfStream)
    );
}

#[test]
fn parser_steps_by_hand() {
    let mut parser = QOIParser::new();
    assert_eq!(parser.space(), 17);
    assert_eq!(parser.parse(), Ok(ParseEvent::NeedData));
    let bytes = stream(1, 1, &[0xff, 10, 20, 30, 255]);
    parser.feed(&bytes[..10]);
    assert_eq!(parser.parse(), Ok(ParseEvent::NeedData));
    parser.feed(&bytes[10..15]);
    assert_eq!(parser.parse(), Ok(ParseEvent::Header(QOIHeader::new(1, 1, 4, 0))));
    assert_eq!(parser.parse(), Ok(ParseEvent::NeedData));
    let mut pos = 15;
    let mut seen = Vec::new();
    loop {
        match parser.parse() {
            Ok(ParseEvent::NeedData) => {
                let n = parser.space().min(bytes.len() - pos).min(3);
                if n == 0 {
                    parser.end_of_input();
                } else {
                    parser.feed(&bytes[pos..pos + n]);
                    pos += n;
                }
            }
            Ok(ParseEvent::Chunk(c)) => seen.push(c),
            Ok(ParseEvent::Done) => break,
            other => panic!("unexpected {:?}", other),
        }
    }
    assert_eq!(
        seen,
        vec![QOIChunk::RGBA(RGBA { r: 10, g: 20, b: 30, a: 255 }), QOIChunk::EndMarker]
    );
    assert_eq!(parser.parse(), Ok(ParseEvent::Done));
}

#[test]
fn decoder_new_and_decode() {
    let header = QOIHeader::new(2, 2, 4, 0);
    let decoder = QOIDecoder::new(header);
    assert_eq!(decoder.header(), header);
    let chunks = [
        QOIChunk::RGB(RGB { r: 1, g: 2, b: 3 }),
        QOIChunk::OpRun(OpRun { run: 1 }),
        QOIChunk::EndMarker,
        QOIChunk::RGB(RGB { r: 9, g: 9, b: 9 }),
    ];
    let pixels = decoder.decode(&chunks).unwrap();
    let a: Vec<[u8; 4]> = pixels.iter().map(raw).collect();
    assert_eq!(a, vec![[1, 2, 3, 255], [1, 2, 3, 255], [1, 2, 3, 255], [0, 0, 0, 255]]);
}

#[test]
fn raw_pixel_from_bytes() {
    let p: RawPixel = [1u8, 2, 3, 4].into();
    assert_eq!(p.bytes(), [1, 2, 3, 4]);
    assert_eq!(raw(&Pixel::new(5, 6, 7, 8).to_raw()), [5, 6, 7, 8]);
}
