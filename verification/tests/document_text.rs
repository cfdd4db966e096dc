use rjtd::document_text::scan::{SKIPPED_INLINE_MAX_UNITS, TEXT_RUN_MARKER};
use rjtd::document_text::{
    DOCUMENT_TEXT_INLINE_SPACE_CONTROL, DOCUMENT_TEXT_PAGE_BREAK_CONTROL, DocumentTextElement,
    DocumentTextMapKind, EMBEDDED_DOCUMENT_TEXT_PATH, TEXT_CONTENT_HEADER_WORDS,
    extract_document_text, is_just_compressed_document, map_document_text, parse_document_text,
    read_document_text_payload, read_document_text_stream, trim_trailing_exposed_controls,
};
use rjtd::document_text::{
    DocumentTextRowHeaderPair, DocumentTextRowHeaderPairClassification,
    parse_document_text_row_headers,
};
use std::io::{Cursor, Write};

#[test]
fn extracts_utf16be_runs_after_text_marker() {
    let mut bytes = b"SsmgV.01".to_vec();
    bytes.extend_from_slice(&[0x00, 0x1f]);
    for unit in "銀河".encode_utf16() {
        bytes.extend_from_slice(&unit.to_be_bytes());
    }
    bytes.extend_from_slice(&[0x00, 0x1c]);
    bytes.extend_from_slice(&[0x00, 0x1f]);
    for unit in "鉄道\n".encode_utf16() {
        bytes.extend_from_slice(&unit.to_be_bytes());
    }

    assert_eq!(extract_document_text(&bytes), "銀河鉄道\n");
}

#[test]
fn ignores_bytes_before_text_marker() {
    let mut bytes = vec![0x53, 0x73, 0x6d, 0x67, 0x00, 0x10, 0x00, 0x20];
    bytes.extend_from_slice(&[0x00, 0x1f]);
    for unit in "本文".encode_utf16() {
        bytes.extend_from_slice(&unit.to_be_bytes());
    }

    assert_eq!(extract_document_text(&bytes), "本文");
}

#[test]
fn treats_c1_control_codes_as_boundaries() {
    let mut bytes = vec![0x00, 0x1f];
    for unit in "目次".encode_utf16() {
        bytes.extend_from_slice(&unit.to_be_bytes());
    }
    bytes.extend_from_slice(&[0x00, 0x90]);
    for unit in "ignored".encode_utf16() {
        bytes.extend_from_slice(&unit.to_be_bytes());
    }

    assert_eq!(extract_document_text(&bytes), "目次");
}

#[test]
fn continues_text_after_row_delimiter_inside_text_run() {
    let mut bytes = vec![0x00, 0x1f, 0x00, 0x0e];
    for unit in "１，次の計算をしなさい\n".encode_utf16() {
        bytes.extend_from_slice(&unit.to_be_bytes());
    }
    extend_units(&mut bytes, &[0x001c]);

    assert_eq!(extract_document_text(&bytes), "１，次の計算をしなさい\n");

    let map = map_document_text(&bytes);
    assert_eq!(
        map.entries()[0].kind(),
        DocumentTextMapKind::ControlBoundary
    );
    assert_eq!(map.entries()[0].code(), Some(0x000e));
    assert_eq!(map.entries()[1].kind(), DocumentTextMapKind::TextRun);
    assert_eq!(map.entries()[1].unit_start(), 2);
    assert_eq!(map.entries()[1].text(), "１，次の計算をしなさい\n");
}

#[test]
fn continues_text_after_page_break_control_inside_text_run() {
    let mut bytes = vec![0x00, 0x1f];
    for unit in "一、午后の授業".encode_utf16() {
        bytes.extend_from_slice(&unit.to_be_bytes());
    }
    extend_units(&mut bytes, &[DOCUMENT_TEXT_PAGE_BREAK_CONTROL]);
    for unit in "二、活版所\n".encode_utf16() {
        bytes.extend_from_slice(&unit.to_be_bytes());
    }
    extend_units(&mut bytes, &[0x001c]);

    assert_eq!(extract_document_text(&bytes), "一、午后の授業二、活版所\n");

    let map = map_document_text(&bytes);
    assert_eq!(map.entries()[0].kind(), DocumentTextMapKind::TextRun);
    assert_eq!(map.entries()[0].text(), "一、午后の授業");
    assert_eq!(
        map.entries()[1].kind(),
        DocumentTextMapKind::ControlBoundary
    );
    assert_eq!(
        map.entries()[1].code(),
        Some(DOCUMENT_TEXT_PAGE_BREAK_CONTROL)
    );
    assert_eq!(map.entries()[2].kind(), DocumentTextMapKind::TextRun);
    assert_eq!(map.entries()[2].text(), "二、活版所\n");
}

#[test]
fn continues_text_after_inline_space_control_inside_text_run() {
    let mut bytes = vec![0x00, 0x1f];
    for unit in "ジョバンニは学校の門を".encode_utf16() {
        bytes.extend_from_slice(&unit.to_be_bytes());
    }
    extend_units(&mut bytes, &[DOCUMENT_TEXT_INLINE_SPACE_CONTROL]);
    for unit in "出るとき\n".encode_utf16() {
        bytes.extend_from_slice(&unit.to_be_bytes());
    }
    extend_units(&mut bytes, &[0x001c]);

    assert_eq!(
        extract_document_text(&bytes),
        "ジョバンニは学校の門を出るとき\n"
    );

    let map = map_document_text(&bytes);
    assert_eq!(map.entries()[0].kind(), DocumentTextMapKind::TextRun);
    assert_eq!(map.entries()[0].text(), "ジョバンニは学校の門を");
    assert_eq!(
        map.entries()[1].kind(),
        DocumentTextMapKind::ControlBoundary
    );
    assert_eq!(
        map.entries()[1].code(),
        Some(DOCUMENT_TEXT_INLINE_SPACE_CONTROL)
    );
    assert_eq!(map.entries()[2].kind(), DocumentTextMapKind::TextRun);
    assert_eq!(map.entries()[2].text(), "出るとき\n");
}

#[test]
fn extracts_display_inline_segments_without_phonetic_annotations() {
    let mut bytes = vec![0x00, 0x1f];
    for unit in "一、".encode_utf16() {
        bytes.extend_from_slice(&unit.to_be_bytes());
    }
    extend_units(
        &mut bytes,
        &[0x001c, 0x0001, 0x0007, 0x0000, 0x0000, 0x0003, 0x001d],
    );
    for unit in "午后".encode_utf16() {
        bytes.extend_from_slice(&unit.to_be_bytes());
    }
    extend_units(&mut bytes, &[0x001e, 0x0005, 0x0000, 0x0001, 0x001f]);
    extend_units(
        &mut bytes,
        &[0x001c, 0x0001, 0x0007, 0x0000, 0x0001, 0x0082, 0x001d],
    );
    for unit in "ごご".encode_utf16() {
        bytes.extend_from_slice(&unit.to_be_bytes());
    }
    extend_units(&mut bytes, &[0x001e, 0x0005, 0x0000, 0x0001, 0x001f]);
    for unit in "の授業".encode_utf16() {
        bytes.extend_from_slice(&unit.to_be_bytes());
    }

    assert_eq!(extract_document_text(&bytes), "一、午后の授業");

    let parsed = parse_document_text(&bytes);
    let skipped = parsed
        .elements()
        .iter()
        .find_map(|element| match element {
            DocumentTextElement::SkippedInlineText(segment) => Some(segment),
            _ => None,
        })
        .expect("phonetic annotation should be preserved as skipped inline text");
    assert_eq!(skipped.selector(), Some(0x0082));
    assert_eq!(skipped.text(), "ごご");
    assert!(!skipped.raw_bytes().is_empty());
}

#[test]
fn parses_document_text_into_structured_elements() {
    let mut bytes = vec![0x00, 0x1f];
    for unit in "一、".encode_utf16() {
        bytes.extend_from_slice(&unit.to_be_bytes());
    }
    extend_units(
        &mut bytes,
        &[0x001c, 0x0001, 0x0007, 0x0000, 0x0000, 0x0003, 0x001d],
    );
    for unit in "午后".encode_utf16() {
        bytes.extend_from_slice(&unit.to_be_bytes());
    }
    extend_units(&mut bytes, &[0x001e, 0x0005, 0x0000, 0x0001, 0x001f]);
    for unit in "の授業".encode_utf16() {
        bytes.extend_from_slice(&unit.to_be_bytes());
    }

    let parsed = parse_document_text(&bytes);

    assert_eq!(parsed.plain_text(), "一、午后の授業");
    assert_eq!(parsed.elements().len(), 4);
    assert_eq!(
        parsed.elements()[0],
        DocumentTextElement::TextRun("一、".into())
    );
    match &parsed.elements()[1] {
        DocumentTextElement::ControlBoundary(control) => {
            assert_eq!(control.code(), 0x001c);
        }
        other => panic!("expected control boundary, got {other:?}"),
    }
    match &parsed.elements()[2] {
        DocumentTextElement::InlineText(segment) => {
            assert_eq!(segment.selector(), 0x0003);
            assert_eq!(segment.text(), "午后");
        }
        other => panic!("expected inline text segment, got {other:?}"),
    }
    assert_eq!(
        parsed.elements()[3],
        DocumentTextElement::TextRun("の授業".into())
    );
}

#[test]
fn maps_document_text_elements_to_byte_and_unit_ranges() {
    let mut bytes = b"SsmgV.01".to_vec();
    bytes.extend_from_slice(&[0x00, 0x1f]);
    for unit in "銀河".encode_utf16() {
        bytes.extend_from_slice(&unit.to_be_bytes());
    }
    bytes.extend_from_slice(&[0x00, 0x1c]);
    bytes.extend_from_slice(&[0x00, 0x1f]);
    for unit in "鉄道\n".encode_utf16() {
        bytes.extend_from_slice(&unit.to_be_bytes());
    }

    let map = map_document_text(&bytes);

    assert_eq!(map.entries().len(), 3);
    assert_eq!(map.entries()[0].kind(), DocumentTextMapKind::TextRun);
    assert_eq!(map.entries()[0].byte_start(), 10);
    assert_eq!(map.entries()[0].byte_end(), 14);
    assert_eq!(map.entries()[0].unit_start(), 5);
    assert_eq!(map.entries()[0].unit_end(), 7);
    assert_eq!(map.entries()[0].text(), "銀河");
    assert!(map.entries()[0].contains_byte_offset(10));
    assert!(map.entries()[0].contains_unit_offset(5));
    assert_eq!(
        map.entries()[1].kind(),
        DocumentTextMapKind::ControlBoundary
    );
    assert_eq!(map.entries()[1].code(), Some(0x001c));
    assert_eq!(map.entries()[2].text(), "鉄道\n");
}

#[test]
fn extracts_template_placeholder_inline_segments() {
    let mut bytes = Vec::new();
    extend_units(
        &mut bytes,
        &[0x001c, 0x0001, 0x0007, 0x0000, 0x0000, 0x0001, 0x001d],
    );
    for unit in "○○○".encode_utf16() {
        bytes.extend_from_slice(&unit.to_be_bytes());
    }
    extend_units(&mut bytes, &[0x001e, 0x001f]);
    for unit in "賞".encode_utf16() {
        bytes.extend_from_slice(&unit.to_be_bytes());
    }

    assert_eq!(extract_document_text(&bytes), "○○○賞");
}

#[test]
fn skips_template_instruction_inline_segments() {
    let mut bytes = Vec::new();
    extend_units(
        &mut bytes,
        &[0x001c, 0x0001, 0x0007, 0x0000, 0x0001, 0x0000, 0x001d],
    );
    for unit in "名前を入力してください。".encode_utf16() {
        bytes.extend_from_slice(&unit.to_be_bytes());
    }
    extend_units(&mut bytes, &[0x001e, 0x001f]);
    for unit in "本文".encode_utf16() {
        bytes.extend_from_slice(&unit.to_be_bytes());
    }

    assert_eq!(extract_document_text(&bytes), "本文");

    let parsed = parse_document_text(&bytes);
    let skipped = parsed
        .elements()
        .iter()
        .find_map(|element| match element {
            DocumentTextElement::SkippedInlineText(segment) => Some(segment),
            _ => None,
        })
        .expect("template instruction should be preserved as skipped inline text");
    assert_eq!(skipped.selector(), Some(0x0000));
    assert_eq!(skipped.text(), "名前を入力してください。");
}

#[test]
fn does_not_consume_unbounded_skipped_inline_segments() {
    let mut bytes = Vec::new();
    extend_units(
        &mut bytes,
        &[0x001c, 0x0001, 0x0007, 0x0000, 0x0001, 0x0082, 0x001d],
    );
    for _ in 0..(SKIPPED_INLINE_MAX_UNITS + 2) {
        bytes.extend_from_slice(&0x3042_u16.to_be_bytes());
    }
    bytes.extend_from_slice(&[0x00, 0x1e]);

    let parsed = parse_document_text(&bytes);

    assert!(
        parsed
            .elements()
            .iter()
            .all(|element| { !matches!(element, DocumentTextElement::SkippedInlineText(_)) })
    );
    assert!(parsed.elements().iter().any(|element| matches!(
        element,
        DocumentTextElement::ControlBoundary(control) if control.code() == 0x001d
    )));
}

#[test]
fn extracts_styled_body_text_inside_inline_start_end_boundaries() {
    let mut bytes = Vec::new();
    for unit in "先生は、黒板に吊した大きな黒い星座の図の、上から下へ白くけぶった銀河帯のようなところを指しながら、みんなに問をかけました。\n".encode_utf16() {
        bytes.extend_from_slice(&unit.to_be_bytes());
    }
    extend_units(
        &mut bytes,
        &[
            0x001c, 0x0010, 0x0011, 0x0000, 0x00a3, 0x0002, 0x0002, 0xffff, 0x00a4,
            0x0001, 0x001d, 0xffff, 0x0000, 0x0011, 0x0000, 0x0010, 0x001f,
        ],
    );
    for unit in "「ではみなさんは、そういうふうに川だと云われたり、乳の流れたあとだと云われたりしていたこのぼんやりと白いものがほんとうは何かご承知ですか。」".encode_utf16() {
        bytes.extend_from_slice(&unit.to_be_bytes());
    }
    extend_units(
        &mut bytes,
        &[
            0x000a, 0x001c, 0x0010, 0x0011, 0x0000, 0x00a3, 0x0002, 0x0002, 0xffff,
            0x00a4, 0x0001, 0x001e,
        ],
    );
    extend_units(&mut bytes, &[0x001f]);
    for unit in "カムパネルラが手をあげました。".encode_utf16() {
        bytes.extend_from_slice(&unit.to_be_bytes());
    }

    let extracted = extract_document_text(&bytes);
    assert!(extracted.contains("「ではみなさんは、そういうふうに川だと云われたり、乳の流れたあとだと云われたりしていたこのぼんやりと白いものがほんとうは何かご承知ですか。」"));
    assert!(extracted.contains("カムパネルラが手をあげました。"));
}

#[test]
fn detects_just_compressed_document_payload() {
    assert!(is_just_compressed_document(
        b"\x26\0JustCompressedDocument\0payload"
    ));
    assert!(!is_just_compressed_document(b"DocumentText"));
}

#[test]
fn reports_compressed_document_when_document_text_is_absent() {
    let bytes = cfb_with_stream(
        "/JSCompDocument",
        b"\x26\0JustCompressedDocument\0-lh5-\0payload",
    );
    let error = read_document_text_stream(&bytes).unwrap_err();

    assert!(error.message().contains("invalid data"));
}

#[test]
fn reports_missing_document_text_without_known_compressed_payload() {
    let bytes = cfb_with_stream("/Other", b"payload");
    let error = read_document_text_stream(&bytes).unwrap_err();

    assert!(error.message().contains("not found"));
}

#[test]
fn reads_embedded_document_text_when_named_stream_is_absent() {
    let mut embedded = b"prefix SsmgV.01".to_vec();
    embedded.extend_from_slice(&[0x00, 0x1f]);
    for unit in "Note".encode_utf16() {
        embedded.extend_from_slice(&unit.to_be_bytes());
    }
    let bytes = cfb_with_stream("/JSSlipObject1", &embedded);

    let payload = read_document_text_payload(&bytes).unwrap();

    assert_eq!(payload.source_name(), EMBEDDED_DOCUMENT_TEXT_PATH);
    assert_eq!(payload.text(), "Note");
    assert!(payload.bytes().starts_with(b"SsmgV.01"));
}

#[test]
fn embedded_document_text_drops_implausible_noise_lines() {
    let mut embedded = b"SsmgV.01".to_vec();
    embedded.extend_from_slice(&[0x00, 0x1f]);
    for unit in "NoteĀ́āāāā蔭\u{f706}\r本文".encode_utf16() {
        embedded.extend_from_slice(&unit.to_be_bytes());
    }
    let bytes = cfb_with_stream("/JSSlipObject1", &embedded);

    let payload = read_document_text_payload(&bytes).unwrap();

    assert_eq!(payload.text(), "本文");
}

fn extend_units(bytes: &mut Vec<u8>, units: &[u16]) {
    for unit in units {
        bytes.extend_from_slice(&unit.to_be_bytes());
    }
}

#[test]
fn parses_raw_text_segment_format_without_paragraph_markers() {
    let text_content: Vec<u16> = "te\nsto\nて".encode_utf16().collect();
    let length = text_content.len() as u16;
    let mut payload: Vec<u8> = Vec::new();
    let header: &[u16] = &[
        0x5373, 0x6d67, 0x562e, 0x3031, 0x0000, 0x0001, 0x0000, 0x0100, 0x0000, 0x0001,
    ];
    for w in header {
        payload.extend_from_slice(&w.to_be_bytes());
    }
    for w in &[0x5465_u16, 0x7874, 0x562e, 0x3031] {
        payload.extend_from_slice(&w.to_be_bytes());
    }
    payload.extend_from_slice(&0x0000_u16.to_be_bytes());
    payload.extend_from_slice(&length.to_be_bytes());
    for w in &text_content {
        payload.extend_from_slice(&w.to_be_bytes());
    }

    let parsed = parse_document_text(&payload);
    let text = parsed.plain_text();
    assert!(text.contains("te"), "should contain 'te' but got: {text:?}");
    assert!(
        text.contains("sto"),
        "should contain 'sto' but got: {text:?}"
    );
    assert!(text.contains('て'), "should contain 'て' but got: {text:?}");
}

fn markerless_raw_payload(segment_count: u16, text: &str, tail: &[u16]) -> Vec<u8> {
    let text_content: Vec<u16> = text.encode_utf16().collect();
    let length = text_content.len() as u16;
    let mut payload: Vec<u8> = Vec::new();
    extend_units(
        &mut payload,
        &[
            0x5373, 0x6d67, 0x562e, 0x3031, 0x0000, 0x0001, 0x0000, 0x0100, 0x0000,
            segment_count,
        ],
    );
    extend_units(&mut payload, &[0x5465, 0x7874, 0x562e, 0x3031]);
    extend_units(&mut payload, &[0x0000, length]);
    extend_units(&mut payload, &text_content);
    extend_units(&mut payload, tail);
    payload
}

const GALAXY_P1: &str = "「ではみなさんは、そういうふうに川だと云われたり、乳の流れたあとだと云われたりしていたこのぼんやりと白いものがほんとうは何かご承知ですか。」先生は、黒板に吊した大きな黒い星座の図の、上から下へ白くけぶった銀河帯のようなところを指しながら、みんなに問をかけました。";

const GALAXY_P2: &str = "カムパネルラが手をあげました。それから四五人手をあげました。ジョバンニも手をあげようとして、急いでそのままやめました。たしかにあれがみんな星だと、いつか雑誌で読んだのでしたが、このごろはジョバンニはまるで毎日教室でもねむく、本を読むひまも読む本もないので、なんだかどんなこともよくわからないという気持ちがするのでした。";

const GALAXY_P3: &str = "ところが先生は早くもそれを見つけたのでした。";

const GALAXY_P4: &str = "「ですからもしもこの天の川がほんとうに川だと考えるなら、その一つ一つの小さな星はみんなその川のそこの砂や砂利の粒にもあたるわけです。」";

#[test]
fn markerless_raw_body_recovers_text_when_segment_count_exceeds_one() {
    let text = format!("{GALAXY_P1}\n{GALAXY_P2}");
    let payload = markerless_raw_payload(0x0004, &text, &[]);

    let parsed = parse_document_text(&payload);

    assert_eq!(
        parsed.plain_text(),
        text,
        "マーカーレス raw 本文（銀河鉄道の夜）が復元できない"
    );
}

#[test]
fn markerless_raw_body_ignores_stray_run_marker_beyond_text_span() {
    let text = format!("{GALAXY_P3}\n{GALAXY_P4}");
    let tail: &[u16] = &[0xffff, 0xffff, 0x0000, 0x000a, 0x001f, 0x3000, 0x74b0];
    let payload = markerless_raw_payload(0x000b, &text, tail);

    let parsed = parse_document_text(&payload);

    assert_eq!(
        parsed.plain_text(),
        text,
        "span 外の孤立 0x001f があっても本文全文を復元しなければならない"
    );
}

const TEXTV01_NAME_WORDS: &[u16] = &[0x5465, 0x7874, 0x562e, 0x3031];
const SSMGV_HEAD_WORDS: &[u16] =
    &[0x5373, 0x6d67, 0x562e, 0x3031, 0x0000, 0x0001, 0x0000, 0x0100, 0x0000];

const RUN_RECORD_FOOTER_WORDS: &[u16] = &[0x001c, 0x0010, 0x0006, 0x0000, 0x0010, 0x001f];

fn mixed_prologue_payload(segment_count: u16, prologue: &[u16], body: &[u16]) -> Vec<u8> {
    let length = (prologue.len() + body.len()) as u16;
    let mut payload: Vec<u8> = Vec::new();
    extend_units(&mut payload, SSMGV_HEAD_WORDS);
    extend_units(&mut payload, &[segment_count]);
    extend_units(&mut payload, TEXTV01_NAME_WORDS);
    extend_units(&mut payload, &[0x0000, length]);
    extend_units(&mut payload, prologue);
    extend_units(&mut payload, body);
    payload
}

fn utf16_units(text: &str) -> Vec<u16> {
    text.encode_utf16().collect()
}

const GALAXY_P5: &str = "「ジョバンニさん。あなたはわかっているのでしょう。」";
const GALAXY_P6: &str =
    "やっぱり星だとジョバンニは思いましたがこんどもすぐに答えることができませんでした。";
const GALAXY_P7: &str = "「ああきっと一緒だよ。お母さん、窓をしめて置こうか。」";
const GALAXY_P8: &str = "「ああ行っておいで。川へははいらないでね。」";
const GALAXY_P9: &str = "ジョバンニは窓をあけました。";
const GALAXY_P10_NOISE: &str = "銀河ステーションで、もらったんだ。";
const GALAXY_P11: &str = "「大きな望遠鏡で銀河をよっく調べると銀河は大体何でしょう。」";
const GALAXY_P12: &str =
    "ジョバンニは、ばっと胸がつめたくなり、そこら中きぃんと鳴るように思いました。";
const GALAXY_P13: &str = "「ああ、お前さきにおあがり。あたしはまだほしくないんだから。」";

#[test]
fn mixed_raw_prologue_recovers_text_before_first_run_marker() {
    let prologue = utf16_units(&format!("{GALAXY_P5}\n"));
    let mut body: Vec<u16> = Vec::new();
    body.extend_from_slice(RUN_RECORD_FOOTER_WORDS);
    body.extend(utf16_units(GALAXY_P6));
    body.extend_from_slice(RUN_RECORD_FOOTER_WORDS);
    body.extend(utf16_units(GALAXY_P7));
    let payload = mixed_prologue_payload(0x0003, &prologue, &body);

    let parsed = parse_document_text(&payload);
    let expected = format!("{GALAXY_P5}\n{GALAXY_P6}{GALAXY_P7}");

    assert_eq!(
        parsed.plain_text(),
        expected,
        "最初の run マーカーより手前の raw 前置き（銀河鉄道の夜）が復元できない"
    );
    assert_eq!(
        parsed.elements().first(),
        Some(&DocumentTextElement::TextRun(format!("{GALAXY_P5}\n"))),
        "前置きは後続マーカー本文より前の TextRun として emit しなければならない"
    );

    let map = map_document_text(&payload);
    assert_eq!(map.entries().first().map(|e| e.unit_start()), Some(16));
    assert_eq!(map.entries().first().map(|e| e.byte_start()), Some(32));
    assert_eq!(
        map.entries().first().map(|e| e.text()),
        Some(format!("{GALAXY_P5}\n").as_str()),
        "プロローグは unit 16（byte 32）から始まるエントリとしてマップされるべき"
    );
    let mapped: String = map.entries().iter().map(|e| e.text()).collect();
    assert_eq!(mapped, expected);
}

#[test]
fn mixed_raw_prologue_keeps_line_breaks_and_stops_at_control_boundary() {
    let mut prologue: Vec<u16> = utf16_units(&format!("{GALAXY_P8}\n"));
    prologue.extend_from_slice(&[0x0000, 0x0000]);
    prologue.extend(utf16_units(GALAXY_P9));
    prologue.push(0x0019);
    prologue.extend(utf16_units(GALAXY_P10_NOISE));
    let mut body: Vec<u16> = Vec::new();
    body.extend_from_slice(RUN_RECORD_FOOTER_WORDS);
    body.extend(utf16_units(GALAXY_P11));
    let payload = mixed_prologue_payload(0x0003, &prologue, &body);

    let parsed = parse_document_text(&payload);
    let expected = format!("{GALAXY_P8}\n{GALAXY_P9}{GALAXY_P11}");

    assert_eq!(
        parsed.plain_text(),
        expected,
        "改行保持・ゼロパディングスキップ・制御境界打ち切りが守られていない"
    );
    assert!(
        !parsed.plain_text().contains(GALAXY_P10_NOISE),
        "制御境界 0x0019 より後ろのノイズ語を出力してはならない"
    );
}

#[test]
fn mixed_raw_prologue_empty_span_keeps_output_unchanged() {
    let mut body: Vec<u16> = Vec::new();
    body.extend_from_slice(RUN_RECORD_FOOTER_WORDS);
    body.extend(utf16_units(GALAXY_P12));
    body.extend_from_slice(RUN_RECORD_FOOTER_WORDS);
    body.extend(utf16_units(GALAXY_P13));
    let payload = mixed_prologue_payload(0x0003, &[], &body);

    let parsed = parse_document_text(&payload);
    let expected = format!("{GALAXY_P12}{GALAXY_P13}");

    assert_eq!(
        parsed.plain_text(),
        expected,
        "前置き空のマーカー型で出力が変化してはならない（リグレッション）"
    );
    let map = map_document_text(&payload);
    assert_eq!(
        map.entries().first().map(|e| e.unit_start()),
        Some(22),
        "前置き空では最初のテキストエントリが語 22（最初の run テキスト）であること"
    );
    let mapped: String = map.entries().iter().map(|e| e.text()).collect();
    assert_eq!(mapped, expected);
}

#[test]
fn parses_row_header_inventory_as_state_run_pairs() {
    let payload = row_header_record_bytes(
        [0x0000, 0x008f, 0x0011, 0x0118, 0x0000, 0x0050],
        &[
            0x0008, 0x0003, 0x0013, 0x0000, 0x0000, 0x0046, 0x0013, 0x0000, 0x0000, 0x0017,
            0x0021, 0x0000, 0x0000, 0x0060, 0xffff, 0x0000,
        ],
    );

    let records = parse_document_text_row_headers(&payload);

    assert_eq!(records.len(), 1);
    let record = &records[0];
    assert_eq!(record.source_span().unit_start(), 0);
    assert_eq!(record.source_span().byte_start(), 0);
    assert_eq!(record.total_len_words(), 29);
    assert_eq!(record.fixed_fields().subtype(), 0x008f);
    assert_eq!(record.fixed_fields().grid_extent(), 0x0118);
    assert_eq!(
        record.fixed_fields().raw_words(),
        &[0x0000, 0x008f, 0x0011, 0x0118, 0x0000, 0x0050]
    );
    assert_eq!(
        record.raw_payload_words(),
        &[
            0x0008, 0x0003, 0x0013, 0x0000, 0x0000, 0x0046, 0x0013, 0x0000, 0x0000, 0x0017,
            0x0021, 0x0000, 0x0000, 0x0060, 0xffff, 0x0000,
        ]
    );
    assert_eq!(
        record
            .pairs()
            .iter()
            .map(|pair| (pair.state_code(), pair.run_length()))
            .collect::<Vec<_>>(),
        vec![
            (0x0008, 0x0003),
            (0x0013, 0x0000),
            (0x0000, 0x0046),
            (0x0013, 0x0000),
            (0x0000, 0x0017),
            (0x0021, 0x0000),
            (0x0000, 0x0060),
        ]
    );
    assert_eq!(record.raw_tail_words(), &[0xffff, 0x0000]);
    assert!(!record.tail_truncated());
    assert!(record.geometry_complete());
    assert_eq!(record.pairs()[0].start_unit(), 81);
    assert_eq!(record.pairs()[0].end_unit(), 84);
    assert_eq!(
        record.pairs()[0].classification(),
        DocumentTextRowHeaderPairClassification::NonBlankRun
    );
    assert_eq!(record.pairs()[1].start_unit(), 85);
    assert_eq!(record.pairs()[1].end_unit(), 85);
    assert_eq!(
        record.pairs()[1].classification(),
        DocumentTextRowHeaderPairClassification::Junction
    );
    assert_eq!(record.pairs()[2].start_unit(), 86);
    assert_eq!(record.pairs()[2].end_unit(), 156);
    assert_eq!(
        record.pairs()[2].classification(),
        DocumentTextRowHeaderPairClassification::BlankRun
    );
    assert!(
        record
            .pairs()
            .iter()
            .all(DocumentTextRowHeaderPair::geometry_complete)
    );
}

#[test]
fn preserves_odd_row_header_tail_words_losslessly() {
    let odd_payload = row_header_record_bytes(
        [0x0000, 0x008f, 0x000f, 0x0118, 0x0000, 0x0020],
        &[0x0023, 0x0000, 0x0000, 0x0020, 0x7777],
    );

    let records = parse_document_text_row_headers(&odd_payload);

    assert_eq!(records.len(), 1);
    let record = &records[0];
    assert_eq!(
        record
            .pairs()
            .iter()
            .map(|pair| (pair.state_code(), pair.run_length()))
            .collect::<Vec<_>>(),
        vec![(0x0023, 0x0000), (0x0000, 0x0020)]
    );
    assert_eq!(record.raw_tail_words(), &[0x7777]);
    assert!(record.tail_truncated());
    assert!(!record.geometry_complete());
}

fn row_header_record_bytes(fixed_words: [u16; 6], payload_words: &[u16]) -> Vec<u8> {
    let total_len_words = (3 + fixed_words.len() + payload_words.len() + 4) as u16;
    let mut words = vec![0x001c, 0x0010, total_len_words];
    words.extend_from_slice(&fixed_words);
    words.extend_from_slice(payload_words);
    words.extend_from_slice(&[total_len_words, 0x0000, 0x0010, 0x001f]);
    units_to_be_bytes(&words)
}

fn cfb_with_stream(path: &str, payload: &[u8]) -> Vec<u8> {
    let mut compound = cfb::CompoundFile::create(Cursor::new(Vec::new())).unwrap();
    compound
        .create_stream(path)
        .unwrap()
        .write_all(payload)
        .unwrap();
    compound.into_inner().into_inner()
}

#[test]
fn bounds_document_text_parsing_to_content_unit_count() {
    let body_text = "一、午后の授業\n「ではみなさんは、そういうふうに川だと云われたり、乳の流れたあとだと云われたりしていたこのぼんやりと白いものがほんとうは何かご承知ですか。」";
    let body_units: Vec<u16> = body_text.encode_utf16().collect();
    let content_unit_count = (1 + body_units.len()) as u32;

    let mut data = Vec::new();
    data.extend_from_slice(b"SsmgV.01");
    extend_units(&mut data, &[0x0000, 0x0001, 0x0000, 0x0100, 0x0000, 0x0027]);
    data.extend_from_slice(b"TextV.01");
    data.extend_from_slice(&content_unit_count.to_be_bytes());

    extend_units(&mut data, &[TEXT_RUN_MARKER]);
    extend_units(&mut data, &body_units);

    let trailing_garbage = "「大きな望遠鏡で銀河をよっく調べると銀河は大体何でしょう。」";
    let garbage_units: Vec<u16> = trailing_garbage.encode_utf16().collect();
    extend_units(&mut data, &[0x0000, 0x001c, TEXT_RUN_MARKER]);
    extend_units(&mut data, &garbage_units);

    let parsed = parse_document_text(&data);
    let plain = parsed.plain_text();
    assert!(
        plain.contains("一、午后の授業"),
        "expected body text, got: {plain}"
    );
    assert!(
        !plain.contains("大きな望遠鏡で銀河をよっく調べると"),
        "trailing garbage beyond content_unit_count should not be parsed as body text, got: {plain}"
    );

    let map = map_document_text(&data);
    for entry in map.entries() {
        assert!(
            entry.unit_end() <= TEXT_CONTENT_HEADER_WORDS + content_unit_count as usize,
            "map entry end {} exceeds unit limit {}",
            entry.unit_end(),
            TEXT_CONTENT_HEADER_WORDS + content_unit_count as usize
        );
    }
}

#[test]
fn trims_trailing_exposed_terminal_controls_from_plain_text() {
    let body = "ではみなさんは、そういうふうに川だと云われたり、乳の流れたあとだと云われたりしていたこのぼんやりと白いものがほんとうは何かご承知ですか。";
    let mut content_units: Vec<u16> = body.encode_utf16().collect();
    for unit in [0xFE14u16, 0x0400, 0x0490] {
        content_units.push(unit);
    }

    assert_eq!(
        trim_trailing_exposed_controls("ジョバンニ\u{FE14}\u{0400}\u{0490}"),
        "ジョバンニ"
    );
    assert_eq!(trim_trailing_exposed_controls("ジョバンニ\u{FE14}"), "ジョバンニ");
    assert_eq!(trim_trailing_exposed_controls("ジョバンニ\u{0490}"), "ジョバンニ");
    assert_eq!(trim_trailing_exposed_controls("0.475 \u{FE14}\u{0490}"), "0.475");
    assert_eq!(trim_trailing_exposed_controls("ジョバンニ\u{FE14}  "), "ジョバンニ");
    assert_eq!(trim_trailing_exposed_controls("ジョバンニ\n\n"), "ジョバンニ\n\n");
    assert_eq!(trim_trailing_exposed_controls(body), body);

    let mut data = b"SsmgV.01".to_vec();
    extend_units(&mut data, &[0x0000, 0x0001, 0x0000, 0x0100, 0x0000, 0x0027]);
    data.extend_from_slice(b"TextV.01");
    data.extend_from_slice(&((1 + content_units.len()) as u32).to_be_bytes());
    extend_units(&mut data, &[TEXT_RUN_MARKER]);
    extend_units(&mut data, &content_units);

    let parsed = parse_document_text(&data);
    let plain = parsed.plain_text();
    assert!(
        plain.ends_with(body),
        "expected clean trailing body text, got: {plain:?}"
    );
    assert!(
        !plain.contains('\u{FE14}') && !plain.contains('\u{0490}'),
        "exposed terminal controls should be trimmed, got: {plain:?}"
    );
}

#[test]
fn keeps_mid_text_exposed_records_but_only_trims_the_final_sequence() {
    let mut bytes = b"SsmgV.01".to_vec();
    bytes.extend_from_slice(&[0x00, 0x1f]);
    for unit in "銀河".encode_utf16() {
        bytes.extend_from_slice(&unit.to_be_bytes());
    }
    bytes.extend_from_slice(&0x0400u16.to_be_bytes());
    for unit in "鉄道".encode_utf16() {
        bytes.extend_from_slice(&unit.to_be_bytes());
    }
    for unit in [0xFE14u16, 0x0490] {
        bytes.extend_from_slice(&unit.to_be_bytes());
    }

    let parsed = parse_document_text(&bytes);
    let plain = parsed.plain_text();
    assert_eq!(plain, "銀河\u{0400}鉄道");
}

#[test]
fn parses_document_text_ignores_isolated_text_marker_in_trailing_metadata() {
    let mut bytes = b"SsmgV.01".to_vec();
    bytes.extend_from_slice(&[0x00, 0x1f]);
    for unit in "ジョバンニ".encode_utf16() {
        bytes.extend_from_slice(&unit.to_be_bytes());
    }
    bytes.extend_from_slice(&0x000eu16.to_be_bytes());
    bytes.extend_from_slice(&0x0000u16.to_be_bytes());
    bytes.extend_from_slice(&[0x12, 0x34, 0x56, 0x78]);
    bytes.extend_from_slice(&0x001fu16.to_be_bytes());
    for unit in [0xfe01u16, 0x0200, 0x0302, 0x0200, 0x03ff, 0x0000] {
        bytes.extend_from_slice(&unit.to_be_bytes());
    }

    let parsed = parse_document_text(&bytes);
    let plain = parsed.plain_text();
    assert_eq!(plain.trim(), "ジョバンニ");
    assert!(
        !plain.contains('\u{FE01}')
            && !plain.contains('\u{0200}')
            && !plain.contains('\u{0302}')
            && !plain.contains('\u{03FF}'),
        "isolated marker in trailing metadata should not produce text elements, got: {plain:?}"
    );
}

#[test]
fn restores_heading_and_itemization_numbering_from_paragraph_headers() {
    let mut content = Vec::new();

    content.extend_from_slice(&[
        0x001c, 0x0010, 0x0011, 0x0000, 0x00a3, 0x0002, 0x0001, 0xffff, 0x0050, 0x0002,
        0x0001, 0xffff, 0x0000, 0x0011, 0x0000, 0x0010, 0x001f,
    ]);
    content.extend("午后の授業\n".encode_utf16());

    content.extend_from_slice(&[
        0x001c, 0x0010, 0x0011, 0x0000, 0x00a3, 0x0002, 0x0001, 0xffff, 0x0050, 0x0002,
        0x0002, 0xffff, 0x0000, 0x0011, 0x0000, 0x0010, 0x001f,
    ]);
    content.extend("星座の図\n".encode_utf16());

    content.extend_from_slice(&[
        0x001c, 0x0010, 0x0011, 0x0000, 0x00a3, 0x0002, 0x0001, 0xffff, 0x0050, 0x0002,
        0x0003, 0xffff, 0x0000, 0x0011, 0x0000, 0x0010, 0x001f,
    ]);
    content.extend("銀河の巨きな星\n".encode_utf16());

    content.extend_from_slice(&[
        0x001c, 0x0010, 0x0011, 0x0000, 0x00a3, 0x0002, 0x0002, 0x7fff, 0x00a4, 0x0001,
        0x001d, 0xffff, 0x0000, 0x0011, 0x0000, 0x0010, 0x001f,
    ]);
    content.extend("ジョバンニは手をあげようとして、急いでそれをやめました。\n".encode_utf16());

    content.extend_from_slice(&[
        0x001c, 0x0010, 0x0011, 0x0000, 0x00a3, 0x0002, 0x0002, 0xffff, 0x00a4, 0x0001,
        0x001d, 0xffff, 0x0000, 0x0011, 0x0000, 0x0010, 0x001f,
    ]);
    content.extend("カムパネルラが手をあげました。\n".encode_utf16());

    content.extend_from_slice(&[
        0x001c, 0x0010, 0x0011, 0x0000, 0x00a3, 0x0002, 0x0008, 0xffff, 0x0050, 0x0002,
        0x0001, 0xffff, 0x0000, 0x0011, 0x0000, 0x0010, 0x001f,
    ]);
    content.extend("カムパネルラ\n".encode_utf16());

    content.extend_from_slice(&[
        0x001c, 0x0010, 0x0011, 0x0000, 0x00a3, 0x0002, 0x0008, 0xffff, 0x0050, 0x0002,
        0x0002, 0xffff, 0x0000, 0x0011, 0x0000, 0x0010, 0x001f,
    ]);
    content.extend("ジョバンニ\n".encode_utf16());

    let content_unit_count = content.len() as u32;
    let mut data = Vec::new();
    data.extend_from_slice(b"SsmgV.01");
    extend_units(&mut data, &[0x0000, 0x0001, 0x0000, 0x0100, 0x0000, 0x0027]);
    data.extend_from_slice(b"TextV.01");
    data.extend_from_slice(&content_unit_count.to_be_bytes());
    extend_units(&mut data, &content);

    let parsed = parse_document_text(&data);
    let plain = parsed.plain_text();

    assert!(
        plain.contains("第1章 午后の授業"),
        "expected chapter 1 prefix, got: {plain}"
    );
    assert!(
        plain.contains("1.1 星座の図"),
        "expected section 1.1 prefix, got: {plain}"
    );
    assert!(
        plain.contains("1.1.1 銀河の巨きな星"),
        "expected subsection 1.1.1 prefix, got: {plain}"
    );
    assert!(
        plain.contains("(1) ジョバンニは手をあげようとして、急いでそれをやめました。"),
        "expected itemization (1) prefix, got: {plain}"
    );
    assert!(
        plain.contains("(2) カムパネルラが手をあげました。"),
        "expected itemization (2) prefix, got: {plain}"
    );
    assert!(
        plain.contains("① カムパネルラ"),
        "expected circled number ① prefix, got: {plain}"
    );
    assert!(
        plain.contains("①-1 ジョバンニ"),
        "expected circled number ①-1 prefix, got: {plain}"
    );
}

fn units_to_be_bytes(units: &[u16]) -> Vec<u8> {
    let mut bytes = Vec::with_capacity(units.len() * 2);
    for unit in units {
        bytes.extend_from_slice(&unit.to_be_bytes());
    }
    bytes
}
