use rjtd::document_text::{decode_prologue_units, first_text_marker};
use rjtd::layout_box_text::{
    LAYOUT_BOX_BLOCK_PITCH_WORDS, LAYOUT_BOX_HEADER_WORDS, LAYOUT_BOX_TEXT_PATH,
    decode_layout_box_span, parse_layout_box_text, read_layout_box_text,
};
use std::io::{Cursor, Write};

const LAYOUT_BOX_TEXT_SEGMENT_NAME_WORDS: usize = 4;
const LAYOUT_BOX_SPAN_HEADER_WORDS: usize = 2;

fn extend_units(bytes: &mut Vec<u8>, units: &[u16]) {
    for unit in units {
        bytes.extend_from_slice(&unit.to_be_bytes());
    }
}

fn utf16_units(text: &str) -> Vec<u16> {
    text.encode_utf16().collect()
}

fn cfb_with_stream(path: &str, payload: &[u8]) -> Vec<u8> {
    let mut compound = cfb::CompoundFile::create(Cursor::new(Vec::new())).unwrap();
    compound
        .create_stream(path)
        .unwrap()
        .write_all(payload)
        .unwrap();
    compound.into_inner().into_inner()
}

fn fixture_block1() -> Vec<u16> {
    let prologue = "「ジョバンニさん。あなたはわかっているのでしょう。」";
    let inline = "「やっぱり星だとジョバンニは思いましたが」";
    let mut block: Vec<u16> = Vec::new();
    block.extend(utf16_units(&format!("{prologue}\n")));
    block.extend_from_slice(&[
        0x001c, 0x0000, 0x000c, 0x0000, 0x0007, 0x00be, 0x020d, 0x0000, 0x000c, 0x0000, 0x0000,
        0x001f,
    ]);
    block.extend_from_slice(&[0x001c, 0x0001, 0x0007, 0x0000, 0x0000, 0x0003, 0x001d]);
    block.extend(utf16_units(inline));
    block.push(0x001e);
    block
}

fn fixture_raw_block() -> Vec<u16> {
    utf16_units("「うん。ぼく牛乳をとりながら見てくるよ。」")
}

fn tail_table_words() -> &'static [u16] {
    &[
        0x0000, 0x0063, 0x0000, 0x0001, 0x0000, 0x0001, 0x0000, 0x0000, 0x0000, 0x0049, 0x0000,
        0x0001,
    ]
}

fn layout_box_text_payload(block_count: u16) -> Vec<u8> {
    let block1 = fixture_block1();
    let block2 = fixture_raw_block();
    let mut bytes: Vec<u8> = Vec::new();
    extend_units(
        &mut bytes,
        &[
            0x5373,
            0x6d67,
            0x562e,
            0x3031,
            0x0000,
            0x0002,
            0x0000,
            0x0100,
            0x0000,
            block_count,
        ],
    );
    for block in [&block1, &block2] {
        extend_units(&mut bytes, &[0x5465, 0x7874, 0x562e, 0x3031]);
        extend_units(&mut bytes, &[0x0000, block.len() as u16]);
        extend_units(&mut bytes, block);
        let used =
            LAYOUT_BOX_TEXT_SEGMENT_NAME_WORDS + LAYOUT_BOX_SPAN_HEADER_WORDS + block.len();
        extend_units(
            &mut bytes,
            &vec![0x0000u16; LAYOUT_BOX_BLOCK_PITCH_WORDS - used],
        );
    }
    extend_units(&mut bytes, tail_table_words());
    bytes
}

#[test]
fn decodes_mixed_block_as_prologue_then_inline_text() {
    let block = fixture_block1();
    let decoded = decode_layout_box_span(&block, 0, block.len());
    assert_eq!(
        decoded,
        "「ジョバンニさん。あなたはわかっているのでしょう。」\n「やっぱり星だとジョバンニは思いましたが」"
    );
    assert!(!decoded.contains('\u{00be}'));
    assert!(!decoded.contains('\u{020d}'));
}

#[test]
fn decodes_markerless_block_as_full_raw_text() {
    let block = fixture_raw_block();
    assert_eq!(
        decode_layout_box_span(&block, 0, block.len()),
        "「うん。ぼく牛乳をとりながら見てくるよ。」"
    );
}

#[test]
fn parses_blocks_joins_with_newlines_and_ignores_tail_table() {
    let payload = layout_box_text_payload(2);
    let text = parse_layout_box_text(&payload).expect("valid layout should parse");

    assert_eq!(text.blocks().len(), 2);
    assert_eq!(
        text.blocks()[0],
        "「ジョバンニさん。あなたはわかっているのでしょう。」\n「やっぱり星だとジョバンニは思いましたが」"
    );
    assert_eq!(
        text.blocks()[1],
        "「うん。ぼく牛乳をとりながら見てくるよ。」"
    );
    let joined = text.text();
    assert_eq!(
        joined,
        "「ジョバンニさん。あなたはわかっているのでしょう。」\n「やっぱり星だとジョバンニは思いましたが」\n「うん。ぼく牛乳をとりながら見てくるよ。」"
    );
    assert!(!joined.contains('c'));
    assert!(!joined.contains('I'));
    assert!(!joined.contains('¾'));
    assert!(!joined.contains('\u{020d}'));
}

#[test]
fn block_count_bounds_reading_to_declared_area_only() {
    let mut payload = layout_box_text_payload(2);
    let header_count_offset = (LAYOUT_BOX_HEADER_WORDS - 1) * 2;
    payload[header_count_offset..header_count_offset + 2].copy_from_slice(&1u16.to_be_bytes());

    let text = parse_layout_box_text(&payload).expect("single declared block should parse");
    assert_eq!(text.blocks().len(), 1);
    assert!(
        text.text()
            .starts_with("「ジョバンニさん。あなたはわかっているのでしょう。」")
    );
    assert!(
        !text
            .text()
            .contains("「うん。ぼく牛乳をとりながら見てくるよ。」")
    );
}

#[test]
fn read_layout_box_text_returns_none_when_stream_missing() {
    let bytes = cfb_with_stream("/Unused", b"payload");
    assert!(read_layout_box_text(&bytes).unwrap().is_none());
}

#[test]
fn read_layout_box_text_extracts_from_cfb_stream() {
    let payload = layout_box_text_payload(2);
    let bytes = cfb_with_stream(LAYOUT_BOX_TEXT_PATH, &payload);
    let text = read_layout_box_text(&bytes)
        .unwrap()
        .expect("should extract box text");
    assert_eq!(text.blocks().len(), 2);
    assert!(
        text.text()
            .starts_with("「ジョバンニさん。あなたはわかっているのでしょう。」")
    );
}

#[test]
fn layout_box_text_rejects_malformed_layouts() {
    assert!(parse_layout_box_text(b"TextV.01........").is_none());
    let mut header_only: Vec<u8> = Vec::new();
    extend_units(
        &mut header_only,
        &[
            0x5373, 0x6d67, 0x562e, 0x3031, 0x0000, 0x0002, 0x0000, 0x0100, 0x0000, 0x0000,
        ],
    );
    let text = parse_layout_box_text(&header_only).expect("header-only block=0 should parse");
    assert!(text.blocks().is_empty());

    let mut truncated: Vec<u8> = Vec::new();
    extend_units(
        &mut truncated,
        &[
            0x5373, 0x6d67, 0x562e, 0x3031, 0x0000, 0x0002, 0x0000, 0x0100, 0x0000, 0x0004,
            0x5465, 0x7874,
        ],
    );
    assert!(parse_layout_box_text(&truncated).is_none());

    let mut corrupted = layout_box_text_payload(1);
    corrupted[20..28].copy_from_slice(b"XXXXXXXX");
    assert!(parse_layout_box_text(&corrupted).is_none());
}

#[test]
fn shared_p1_helpers_keep_marker_and_boundary_semantics() {
    let block = fixture_block1();
    let prose = "「ジョバンニさん。あなたはわかっているのでしょう。」"
        .encode_utf16()
        .count();
    assert_eq!(first_text_marker(&block, 0, block.len()), Some(prose + 1));

    let mut raw: Vec<u16> = Vec::new();
    raw.extend(utf16_units("前置きA\n"));
    raw.extend_from_slice(&[0x0000, 0x0000]);
    raw.extend(utf16_units("前置きB"));
    raw.push(0x0019);
    raw.extend(utf16_units("ノイズ"));
    let (text, boundary) = decode_prologue_units(&raw, 0, raw.len()).unwrap();
    assert_eq!(text, "前置きA\n前置きB");
    assert_eq!(boundary, raw.len() - 4);
}
