use crossgate::cursor::DecodeError;
use crossgate::structure::Graphic;
use crossgate::structure::GraphicInfo;

const FIRST_CHUNK: [u8; 40] = [
    0x00, 0x00, 0x00, 0x00, 0x00, 0x00, 0x00, 0x00, 0xA8, 0x01, 0x00, 0x00, 0xE0, 0xFF, 0xFF,
    0xFF, 0xE8, 0xFF, 0xFF, 0xFF, 0x40, 0x00, 0x00, 0x00, 0x2F, 0x00, 0x00, 0x00, 0x01, 0x01,
    0x01, 0x00, 0x00, 0x00, 0x00, 0x00, 0xE7, 0x03, 0x00, 0x00,
];

const SECOND_CHUNK: [u8; 40] = [
    0x01, 0x00, 0x00, 0x00, 0xA8, 0x01, 0x00, 0x00, 0x12, 0x00, 0x00, 0x00, 0xE0, 0xFF, 0xFF,
    0xFF, 0xE8, 0xFF, 0xFF, 0xFF, 0x40, 0x00, 0x00, 0x00, 0x30, 0x00, 0x00, 0x00, 0x01, 0x01,
    0x00, 0x00, 0x00, 0x00, 0x00, 0x00, 0x12, 0x00, 0x00, 0x00,
];

/// A blob record matching the first chunk's index entry: tag `R`,`D`,
/// version 1, reserved 0, width 64, height 47, length 424, then 424
/// payload bytes.
fn example_blob() -> Vec<u8> {
    let mut blob: Vec<u8> = vec![
        0x52, 0x44, 0x01, 0x00, 0x40, 0x00, 0x00, 0x00, 0x2F, 0x00, 0x00, 0x00, 0xA8, 0x01, 0x00,
        0x00,
    ];
    for i in 0..424 {
        blob.push((i % 251) as u8);
    }
    blob
}

fn first_info() -> GraphicInfo {
    GraphicInfo {
        id: 0,
        address: 0,
        length: 424,
        offset_x: -32,
        offset_y: -24,
        width: 64,
        height: 47,
        tile_east: 1,
        tile_south: 1,
        access: 1,
        _unknown: [0; 5],
        map_id: 999,
    }
}

#[test]
fn it_can_make_graphic_info() {
    let chunks: Vec<[u8; 40]> = vec![FIRST_CHUNK, SECOND_CHUNK];

    let graphic_info = vec![
        GraphicInfo::make(&chunks[0]).unwrap(),
        GraphicInfo::make(&chunks[1]).unwrap(),
    ];

    assert_eq!(graphic_info[0].id, 0);
    assert_eq!(graphic_info[0].address, 0);
    assert_eq!(graphic_info[0].length, 424);
    assert_eq!(graphic_info[0].offset_x, -32);
    assert_eq!(graphic_info[0].offset_y, -24);
    assert_eq!(graphic_info[0].width, 64);
    assert_eq!(graphic_info[0].height, 47);
    assert_eq!(graphic_info[0].tile_east, 1);
    assert_eq!(graphic_info[0].tile_south, 1);
    assert_eq!(graphic_info[0].access, 1);
    assert_eq!(graphic_info[0].map_id, 999);

    assert_eq!(graphic_info[1].id, 1);
    assert_eq!(graphic_info[1].address, 424);
    assert_eq!(graphic_info[1].length, 18);
    assert_eq!(graphic_info[1].offset_x, -32);
    assert_eq!(graphic_info[1].offset_y, -24);
    assert_eq!(graphic_info[1].width, 64);
    assert_eq!(graphic_info[1].height, 48);
    assert_eq!(graphic_info[1].tile_east, 1);
    assert_eq!(graphic_info[1].tile_south, 1);
    assert_eq!(graphic_info[1].access, 0);
    assert_eq!(graphic_info[1].map_id, 18);
}

#[test]
fn make_rejects_short_buffer() {
    let buf: Vec<u8> = vec![0x00; 39];
    assert_eq!(GraphicInfo::make(&buf).unwrap_err(), DecodeError::UnexpectedEnd);
}

#[test]
fn decode_all_returns_one_record_per_40_bytes() {
    let mut stream: Vec<u8> = Vec::new();
    stream.extend_from_slice(&FIRST_CHUNK);
    stream.extend_from_slice(&SECOND_CHUNK);

    let records = GraphicInfo::decode_all(&stream).unwrap();

    assert_eq!(records.len(), 2);
    assert_eq!(records[0].length, 424);
    assert_eq!(records[0].map_id, 999);
    assert_eq!(records[1].id, 1);
    assert_eq!(records[1].address, 424);
}

#[test]
fn decode_all_is_idempotent() {
    let mut stream: Vec<u8> = Vec::new();
    stream.extend_from_slice(&FIRST_CHUNK);
    stream.extend_from_slice(&SECOND_CHUNK);

    let once = GraphicInfo::decode_all(&stream).unwrap();
    let twice = GraphicInfo::decode_all(&stream).unwrap();

    assert_eq!(once.len(), twice.len());
    for (a, b) in once.iter().zip(twice.iter()) {
        assert_eq!(a.id, b.id);
        assert_eq!(a.address, b.address);
        assert_eq!(a.length, b.length);
        assert_eq!(a.offset_x, b.offset_x);
        assert_eq!(a.offset_y, b.offset_y);
        assert_eq!(a.width, b.width);
        assert_eq!(a.height, b.height);
        assert_eq!(a.tile_east, b.tile_east);
        assert_eq!(a.tile_south, b.tile_south);
        assert_eq!(a.access, b.access);
        assert_eq!(a._unknown, b._unknown);
        assert_eq!(a.map_id, b.map_id);
    }
}

#[test]
fn decode_all_empty_stream_is_ok() {
    let stream: Vec<u8> = Vec::new();
    let records = GraphicInfo::decode_all(&stream).unwrap();
    assert_eq!(records.len(), 0);
}

#[test]
fn decode_all_truncated_record_fails() {
    let mut stream: Vec<u8> = Vec::new();
    stream.extend_from_slice(&FIRST_CHUNK);
    stream.extend_from_slice(&SECOND_CHUNK[..5]);
    assert_eq!(stream.len(), 45);

    assert_eq!(GraphicInfo::decode_all(&stream).unwrap_err(), DecodeError::TruncatedRecord);
}

#[test]
fn decode_one_reads_record_at_address() {
    let blob = example_blob();
    let graphic = Graphic::decode_one(&first_info(), &blob).unwrap();

    assert_eq!(graphic.identifier, [82, 68]);
    assert_eq!(graphic.version, 1);
    assert_eq!(graphic.width, 64);
    assert_eq!(graphic.height, 47);
    assert_eq!(graphic.length, 424);
    assert_eq!(graphic.data.len(), 424);
    assert_eq!(graphic.data[0], 0);
    assert_eq!(graphic.data[423], (423 % 251) as i8);
}

#[test]
fn decode_one_seeks_to_the_declared_address() {
    let mut blob: Vec<u8> = vec![0xEE; 10];
    // Tag R,D; version 2; reserved 0; width 3; height 4; length 2; 2 payload bytes.
    blob.extend_from_slice(&[
        0x52, 0x44, 0x02, 0x00, 0x03, 0x00, 0x00, 0x00, 0x04, 0x00, 0x00, 0x00, 0x02, 0x00, 0x00,
        0x00, 0x7F, 0x80,
    ]);
    let info = GraphicInfo { address: 10, length: 2, ..first_info() };

    let graphic = Graphic::decode_one(&info, &blob).unwrap();

    assert_eq!(graphic.identifier, [82, 68]);
    assert_eq!(graphic.version, 2);
    assert_eq!(graphic.width, 3);
    assert_eq!(graphic.height, 4);
    assert_eq!(graphic.length, 2);
    assert_eq!(graphic.data, vec![127, -128]);
}

#[test]
fn decode_one_rejects_wrong_identifier() {
    let mut blob = example_blob();
    blob[0] = 0x51;

    assert_eq!(
        Graphic::decode_one(&first_info(), &blob).unwrap_err(),
        DecodeError::InvalidIdentifier
    );
}

#[test]
fn decode_one_fails_on_short_payload() {
    let mut blob = example_blob();
    blob.truncate(16 + 423);

    assert_eq!(Graphic::decode_one(&first_info(), &blob).unwrap_err(), DecodeError::UnexpectedEnd);
}

#[test]
fn decode_one_checks_identifier_before_anything_else() {
    // Two bytes are enough to decide: a wrong tag fails before any
    // dimension field is read.
    let blob: Vec<u8> = vec![0x00, 0x00];

    assert_eq!(
        Graphic::decode_one(&first_info(), &blob).unwrap_err(),
        DecodeError::InvalidIdentifier
    );
}

#[test]
fn decode_one_fails_on_short_header() {
    let blob: Vec<u8> = vec![0x52, 0x44, 0x01, 0x00, 0x40];

    assert_eq!(Graphic::decode_one(&first_info(), &blob).unwrap_err(), DecodeError::UnexpectedEnd);
}

#[test]
fn decode_one_fails_past_the_end() {
    let blob = example_blob();
    let info = GraphicInfo { address: 100_000, ..first_info() };

    assert_eq!(Graphic::decode_one(&info, &blob).unwrap_err(), DecodeError::UnexpectedEnd);
}

#[test]
fn info_round_trip_reproduces_bytes() {
    let decoded = GraphicInfo::make(&FIRST_CHUNK).unwrap();
    assert_eq!(decoded.encode(), FIRST_CHUNK.to_vec());

    let decoded = GraphicInfo::make(&SECOND_CHUNK).unwrap();
    assert_eq!(decoded.encode(), SECOND_CHUNK.to_vec());
}

#[test]
fn info_round_trip_keeps_reserved_bytes() {
    let mut chunk = FIRST_CHUNK;
    chunk[31] = 0xAB;
    chunk[35] = 0xFF;

    let decoded = GraphicInfo::make(&chunk).unwrap();
    assert_eq!(decoded._unknown[0], -85);
    assert_eq!(decoded._unknown[4], -1);
    assert_eq!(decoded.encode(), chunk.to_vec());
}

#[test]
fn graphic_round_trip_reproduces_bytes() {
    let blob = example_blob();
    let graphic = Graphic::decode_one(&first_info(), &blob).unwrap();
    assert_eq!(graphic.encode(), blob);
}

#[test]
fn encode_then_decode_returns_equal_info() {
    let original = GraphicInfo {
        id: 7,
        address: 0xDEAD_BEEF,
        length: 3,
        offset_x: -2_000_000_000,
        offset_y: 2_000_000_000,
        width: 0,
        height: 0xFFFF_FFFF,
        tile_east: -128,
        tile_south: 127,
        access: -1,
        _unknown: [1, -2, 3, -4, 5],
        map_id: 42,
    };

    let decoded = GraphicInfo::make(&original.encode()).unwrap();

    assert_eq!(decoded.id, original.id);
    assert_eq!(decoded.address, original.address);
    assert_eq!(decoded.length, original.length);
    assert_eq!(decoded.offset_x, original.offset_x);
    assert_eq!(decoded.offset_y, original.offset_y);
    assert_eq!(decoded.width, original.width);
    assert_eq!(decoded.height, original.height);
    assert_eq!(decoded.tile_east, original.tile_east);
    assert_eq!(decoded.tile_south, original.tile_south);
    assert_eq!(decoded.access, original.access);
    assert_eq!(decoded._unknown, original._unknown);
    assert_eq!(decoded.map_id, original.map_id);
}

#[test]
fn decode_never_panics_on_garbage() {
    // All-or-nothing on malformed input: every failure is a reported error.
    let mut noise: Vec<u8> = Vec::new();
    let mut x: u32 = 0x12345678;
    for _ in 0..200 {
        x = x.wrapping_mul(1664525).wrapping_add(1013904223);
        noise.push((x >> 24) as u8);
    }
    for cut in 0..noise.len() {
        let _ = GraphicInfo::decode_all(&noise[..cut]);
        let _ = GraphicInfo::make(&noise[..cut]);
        let _ = Graphic::decode_one(&first_info(), &noise[..cut]);
    }
}
