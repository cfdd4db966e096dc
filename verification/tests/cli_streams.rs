use rjtd::cli::{ExportOptions, cat_text, export_text};
use rjtd::model::parse_document;
use std::io::{Cursor, Write};

const HEADER_SEGMENT_NAME: [u16; 4] = [0x5465, 0x7874, 0x562e, 0x3031];
const HEADER_CNT_SEGMENT_NAME: [u16; 4] = [0x5443, 0x6e74, 0x562e, 0x3031];
const HEADER_SEGMENT_PITCH_WORDS: usize = 128;
const HEADER_TAIL_TABLE: [u16; 8] = [
    0x001b, 0x0000, 0x0001, 0x0000, 0x0001, 0x0000, 0x005d, 0x00a9,
];

fn extend_words(bytes: &mut Vec<u8>, words: &[u16]) {
    for word in words {
        bytes.extend_from_slice(&word.to_be_bytes());
    }
}

fn utf16_words(text: &str) -> Vec<u16> {
    text.encode_utf16().collect()
}

fn raw_span(text: &str) -> Vec<u16> {
    utf16_words(text)
}

fn marker_span(body: &str) -> Vec<u16> {
    let mut span: Vec<u16> = vec![
        0x001c, 0x0010, 0x001a, 0x0000, 0x0000, 0x0001, 0x0002, 0x0024, 0x0001, 0x0002, 0x0025,
        0x0001, 0x0000, 0x0026, 0x0005, 0x0001, 0x0000, 0x0000, 0x0000, 0x0000, 0xffff, 0x0000,
        0x001a, 0x0000, 0x0010, 0x001f,
    ];
    span.extend(utf16_words(body));
    span.push(0x000a);
    span
}

fn header_payload(segments: &[&[u16]]) -> Vec<u8> {
    let mut bytes: Vec<u8> = Vec::new();
    extend_words(
        &mut bytes,
        &[
            0x5373,
            0x6d67,
            0x562e,
            0x3031,
            0x0000,
            0x0001,
            0x0000,
            0x0100,
            0x0000,
            segments.len() as u16,
        ],
    );
    for segment in segments {
        let cnt = *segment == HEADER_CNT_SEGMENT_NAME.as_slice();
        let name = if cnt {
            HEADER_CNT_SEGMENT_NAME.as_slice()
        } else {
            HEADER_SEGMENT_NAME.as_slice()
        };
        let body_len = if cnt { 0 } else { segment.len() };
        extend_words(&mut bytes, name);
        extend_words(&mut bytes, &[0x0000, body_len as u16]);
        if !cnt {
            extend_words(&mut bytes, segment);
        }
        let pad = HEADER_SEGMENT_PITCH_WORDS.saturating_sub(6 + body_len);
        extend_words(&mut bytes, &vec![0x0000u16; pad]);
    }
    extend_words(&mut bytes, &HEADER_TAIL_TABLE);
    bytes
}

fn empty_cnt_slot() -> Vec<u16> {
    HEADER_CNT_SEGMENT_NAME.to_vec()
}

fn document_text_fixture() -> Vec<u8> {
    let mut bytes = b"SsmgV.01".to_vec();
    bytes.extend_from_slice(&[0x00, 0x1f]);
    for unit in "銀河".encode_utf16() {
        bytes.extend_from_slice(&unit.to_be_bytes());
    }
    bytes.extend_from_slice(&[0x00, 0x1c]);
    bytes.extend_from_slice(&[0x00, 0x1f]);
    for unit in "鉄道\n".encode_utf16() {
        bytes.extend_from_slice(&unit.to_be_bytes());
    }
    bytes
}

fn document_text_from_str(text: &str) -> Vec<u8> {
    let mut bytes = b"SsmgV.01".to_vec();
    bytes.extend_from_slice(&[0x00, 0x1f]);
    for unit in text.encode_utf16() {
        bytes.extend_from_slice(&unit.to_be_bytes());
    }
    bytes
}

fn cfb_with_streams(streams: &[(&str, Vec<u8>)]) -> Vec<u8> {
    let mut compound = cfb::CompoundFile::create(Cursor::new(Vec::new())).unwrap();
    compound
        .create_stream("/\u{4}JSRV_SegmentInformation")
        .unwrap()
        .write_all(b"segment")
        .unwrap();
    for (path, payload) in streams {
        compound
            .create_stream(path)
            .unwrap()
            .write_all(payload)
            .unwrap();
    }
    compound.into_inner().into_inner()
}

fn jtd_with_header(header: &[u8]) -> Vec<u8> {
    cfb_with_streams(&[
        ("/DocumentText", document_text_fixture()),
        ("/Header", header.to_vec()),
    ])
}

fn jtd_without_header() -> Vec<u8> {
    cfb_with_streams(&[("/DocumentText", document_text_fixture())])
}

fn run_cat(bytes: &[u8]) -> (i32, String) {
    match cat_text(bytes) {
        Ok(text) => (0, text),
        Err(_) => (2, String::new()),
    }
}

fn run_export(bytes: &[u8], format: &str, sheet: Option<&str>) -> Result<String, String> {
    let document = parse_document(bytes).map_err(|error| error.message())?;
    let options = ExportOptions {
        format: format.to_string(),
        sheet: sheet.map(str::to_string),
    };
    export_text(&document, &options)
}

fn run_export_txt(bytes: &[u8]) -> (i32, String) {
    match run_export(bytes, "txt", None) {
        Ok(text) => (0, text),
        Err(_) => (2, String::new()),
    }
}

#[test]
fn cat_prepends_resolved_page_number_from_raw_header_span() {
    let bytes = jtd_with_header(&header_payload(&[&raw_span("- ? -"), &empty_cnt_slot()]));
    let (code, stdout) = run_cat(&bytes);

    assert_eq!(code, 0);
    assert_eq!(stdout, "- 1 -\n\n銀河鉄道\n");
    assert!(
        !stdout.contains('?'),
        "プレースホルダ `?` が未解決で残っている"
    );
    assert_no_header_junk(&stdout);
}

#[test]
fn cat_prepends_marker_header_span_run_text() {
    let bytes = jtd_with_header(&header_payload(&[
        &marker_span("（別添：銀河鉄道様式）"),
        &empty_cnt_slot(),
    ]));
    let (code, stdout) = run_cat(&bytes);

    assert_eq!(code, 0);
    assert_eq!(stdout, "（別添：銀河鉄道様式）\n\n銀河鉄道\n");
    assert!(!stdout.contains('$'), "0x0024 スタイル語のリーク");
    assert!(!stdout.contains('%'), "0x0025 スタイル語のリーク");
    assert!(!stdout.contains('\u{ffff}'), "0xffff 無効スカラーのリーク");
    assert_no_header_junk(&stdout);
}

#[test]
fn cat_prepends_multiple_header_spans_in_stream_order() {
    let bytes = jtd_with_header(&header_payload(&[
        &raw_span("- ? -"),
        &empty_cnt_slot(),
        &raw_span("Ver.1.0"),
        &empty_cnt_slot(),
    ]));
    let (code, stdout) = run_cat(&bytes);

    assert_eq!(code, 0);
    assert_eq!(stdout, "- 1 -\nVer.1.0\n\n銀河鉄道\n");
    assert_no_header_junk(&stdout);
}

#[test]
fn cat_header_span_keeps_line_breaks_in_raw_text() {
    let bytes = jtd_with_header(&header_payload(&[
        &raw_span("銀河の夜\n天文台"),
        &empty_cnt_slot(),
    ]));
    let (code, stdout) = run_cat(&bytes);

    assert_eq!(code, 0);
    assert_eq!(stdout, "銀河の夜\n天文台\n\n銀河鉄道\n");
    assert_no_header_junk(&stdout);
}

#[test]
fn cat_output_unchanged_without_header_stream() {
    let bytes = jtd_without_header();
    let (code, stdout) = run_cat(&bytes);

    assert_eq!(code, 0);
    assert_eq!(stdout, "銀河鉄道\n");
}

#[test]
fn cat_output_unchanged_when_header_spans_are_empty() {
    let empty_textv: Vec<u16> = Vec::new();
    let bytes = jtd_with_header(&header_payload(&[&empty_textv, &empty_cnt_slot()]));
    let (code, stdout) = run_cat(&bytes);

    assert_eq!(code, 0);
    assert_eq!(stdout, "銀河鉄道\n");
}

#[test]
fn cat_output_unchanged_when_header_span_is_truncated() {
    let mut broken: Vec<u8> = Vec::new();
    extend_words(
        &mut broken,
        &[
            0x5373, 0x6d67, 0x562e, 0x3031,
            0x0000, 0x0001, 0x0000, 0x0100, 0x0000, 0x0001, 0x5465, 0x7874, 0x562e,
            0x3031,
            0x0000, 0x7fff,
        ],
    );
    extend_words(&mut broken, &HEADER_TAIL_TABLE);
    let bytes = jtd_with_header(&broken);
    let (code, stdout) = run_cat(&bytes);

    assert_eq!(code, 0);
    assert_eq!(stdout, "銀河鉄道\n");
}

#[test]
fn export_txt_prepends_header_before_body() {
    let bytes = jtd_with_header(&header_payload(&[
        &raw_span("- ? -"),
        &empty_cnt_slot(),
        &raw_span("Ver.1.0"),
        &empty_cnt_slot(),
    ]));
    let (code, stdout) = run_export_txt(&bytes);

    assert_eq!(code, 0);
    assert_eq!(stdout, "- 1 -\nVer.1.0\n\n銀河鉄道\n");
    assert_no_header_junk(&stdout);
}

#[test]
fn export_txt_unchanged_without_header_stream() {
    let bytes = jtd_without_header();
    let (code, stdout) = run_export_txt(&bytes);

    assert_eq!(code, 0);
    assert_eq!(stdout, "銀河鉄道\n");
}

fn assert_no_header_junk(stdout: &str) {
    for junk in [
        '\u{001b}', '\u{005d}', '\u{00a9}', '\u{001c}', '\u{001d}', '\u{001e}', '\u{001f}',
    ] {
        assert!(
            !stdout.contains(junk),
            "ヘッダ領域の制御語・テーブル語 `{junk:?}` が出力に漏れている"
        );
    }
    assert!(!stdout.contains("CntV"), "セグメント名 `TCntV.01` のリーク");
}

#[test]
fn export_command_outputs_footnote_references() {
    let bytes = cfb_with_streams(&[
        (
            "/DocumentText",
            document_text_from_str(
                "それはこんやの星祭に青いあかりをこしらえて川へ流す烏瓜を取りに行く相談らしかったのです。[1]\n",
            ),
        ),
        (
            "/Footnote",
            document_text_from_str(
                "[1] 烏瓜（からすうり） ウリ科の植物。星祭で青いあかりを灯して川に流す。\n",
            ),
        ),
    ]);
    let stdout = run_export(&bytes, "text", Some("0")).unwrap();
    assert!(stdout.contains("烏瓜を取りに行く相談らしかったのです。[1]"));
    assert!(stdout.contains("[1] 烏瓜（からすうり） ウリ科の植物。"));
}

#[test]
fn export_command_trims_footnote_trailing_sentinel_note() {
    let mut footnote_bytes = document_text_from_str(
        "[1] ケンタウル祭 銀河のお祭り。星祭ともいう。\n",
    );
    for unit in [0x001cu16, 0x0001, 0x0007, 0x0000, 0x0000, 0x0001, 0x001d] {
        footnote_bytes.extend_from_slice(&unit.to_be_bytes());
    }
    for unit in "Note".encode_utf16() {
        footnote_bytes.extend_from_slice(&unit.to_be_bytes());
    }
    for unit in [0x001eu16, 0x0005, 0x0000, 0x0001, 0x001f] {
        footnote_bytes.extend_from_slice(&unit.to_be_bytes());
    }
    let bytes = cfb_with_streams(&[
        (
            "/DocumentText",
            document_text_from_str(
                "「ではみなさんは、そういうふうに川だと云われたり、乳の流れたあとだと云われたりしていたこのぼんやりと白いものがほんとうは何かご承知ですか。」[1]\n",
            ),
        ),
        ("/Footnote", footnote_bytes),
    ]);
    let stdout = run_export(&bytes, "text", Some("0")).unwrap();
    assert!(
        stdout.contains("[1] ケンタウル祭 銀河のお祭り。星祭ともいう。"),
        "expected footnote text, got: {stdout:?}"
    );
    assert!(!stdout.contains("Note"), "got: {stdout:?}");
}

fn footnote_stream_with_entries(entries: &[(&str, &str)]) -> Vec<u8> {
    let mut bytes = b"SsmgV.01".to_vec();
    for (label, body) in entries {
        for unit in [0x001cu16, 0x0001, 0x0007, 0x0000, 0x0000, 0x0001, 0x001d] {
            bytes.extend_from_slice(&unit.to_be_bytes());
        }
        for unit in label.encode_utf16() {
            bytes.extend_from_slice(&unit.to_be_bytes());
        }
        for unit in [0x001eu16, 0x0005, 0x0000, 0x0001, 0x001f] {
            bytes.extend_from_slice(&unit.to_be_bytes());
        }
        for unit in body.encode_utf16() {
            bytes.extend_from_slice(&unit.to_be_bytes());
        }
    }
    bytes
}

#[test]
fn export_command_respects_non_square_bracket_footnote_decorations() {
    let bytes = cfb_with_streams(&[
        ("/DocumentText", document_text_from_str("星祭の夜。\n")),
        (
            "/Footnote",
            footnote_stream_with_entries(&[
                ("[1]", "烏瓜（からすうり） ウリ科の植物。\n"),
                ("(2)", "星祭 銀河のお祭り。\n"),
                ("1)", "川の光は青く光る。\n"),
            ]),
        ),
    ]);
    let stdout = run_export(&bytes, "text", Some("0")).unwrap();
    assert!(
        stdout.contains("[1] 烏瓜（からすうり） ウリ科の植物。\n(2) 星祭 銀河のお祭り。\n1) 川の光は青く光る。"),
        "got: {stdout:?}"
    );
}

const DOC_PROLOGUE: &str = "ジョバンニは窓をあけました。";
const DOC_RUN1: &str = "「ジョバンニさん。あなたはわかっているのでしょう。」";
const DOC_RUN2: &str = "「大きな望遠鏡で銀河をよっく調べると銀河は大体何でしょう。」";
const BOX_LABEL1: &str = "「お母さんの牛乳は来ていないんだろうか。」";
const BOX_INLINE1: &str = "「ああ、お前さきにおあがり。あたしはまだほしくないんだから。」";
const BOX_RAW2: &str = "「うん。ぼく牛乳をとりながら見てくるよ。」";
const BOX_TEXT_NOTE: &str = "※枠内テキスト";

fn utf16_units(text: &str) -> Vec<u16> {
    text.encode_utf16().collect()
}

fn raw_document_text_payload() -> Vec<u8> {
    let mut content: Vec<u16> = utf16_units(&format!("{DOC_PROLOGUE}\n"));
    content.extend_from_slice(&[0x001c, 0x0010, 0x0006, 0x0000, 0x0010, 0x001f]);
    content.extend(utf16_units(DOC_RUN1));
    content.push(0x000a);
    content.extend_from_slice(&[0x001c, 0x0010, 0x0006, 0x0000, 0x0010, 0x001f]);
    content.extend(utf16_units(DOC_RUN2));

    let length = content.len() as u16;
    let mut bytes: Vec<u8> = Vec::new();
    extend_words(
        &mut bytes,
        &[0x5373, 0x6d67, 0x562e, 0x3031, 0x0000, 0x0001, 0x0000, 0x0100, 0x0000, 0x0002],
    );
    extend_words(&mut bytes, &[0x5465, 0x7874, 0x562e, 0x3031]);
    extend_words(&mut bytes, &[0x0000, length]);
    extend_words(&mut bytes, &content);
    bytes
}

fn layout_box_text_payload() -> Vec<u8> {
    let mut block1: Vec<u16> = Vec::new();
    block1.extend(utf16_units(&format!("{BOX_LABEL1}\n")));
    block1.extend_from_slice(&[
        0x001c, 0x0000, 0x000c, 0x0000, 0x0007, 0x00be, 0x020d, 0x0000, 0x000c, 0x0000, 0x0000,
        0x001f,
    ]);
    block1.extend_from_slice(&[0x001c, 0x0001, 0x0007, 0x0000, 0x0000, 0x0003, 0x001d]);
    block1.extend(utf16_units(BOX_INLINE1));
    block1.push(0x001e);

    let block2: Vec<u16> = utf16_units(BOX_RAW2);

    let mut bytes: Vec<u8> = Vec::new();
    extend_words(
        &mut bytes,
        &[0x5373, 0x6d67, 0x562e, 0x3031, 0x0000, 0x0002, 0x0000, 0x0100, 0x0000, 0x0002],
    );
    for block in [&block1, &block2] {
        extend_words(&mut bytes, &[0x5465, 0x7874, 0x562e, 0x3031]);
        extend_words(&mut bytes, &[0x0000, block.len() as u16]);
        extend_words(&mut bytes, block);
        let used = 6 + block.len();
        extend_words(&mut bytes, &vec![0x0000u16; 128 - used]);
    }
    extend_words(
        &mut bytes,
        &[
            0x0000, 0x0063, 0x0000, 0x0001, 0x0000, 0x0001, 0x0000, 0x0000, 0x0000, 0x0049,
            0x0000, 0x0001,
        ],
    );
    bytes
}

#[test]
fn cat_appends_layout_box_text_after_body() {
    let bytes = cfb_with_streams(&[
        ("/DocumentText", raw_document_text_payload()),
        ("/LayoutBoxText", layout_box_text_payload()),
    ]);
    let stdout = cat_text(&bytes).unwrap();
    let body = format!("{DOC_PROLOGUE}\n{DOC_RUN1}\n{DOC_RUN2}");
    let box_text = format!("{BOX_LABEL1}\n{BOX_INLINE1}\n{BOX_RAW2}");
    assert_eq!(stdout, format!("{body}\n{BOX_TEXT_NOTE}\n{box_text}"));
    assert!(!stdout.contains('¾') && !stdout.contains('ȍ'));
    assert!(!stdout.contains('c') && !stdout.contains('I'));
}

#[test]
fn cat_output_unchanged_without_layout_box_text() {
    let bytes = cfb_with_streams(&[("/DocumentText", raw_document_text_payload())]);
    let stdout = cat_text(&bytes).unwrap();
    assert!(!stdout.contains(BOX_TEXT_NOTE));
    assert_eq!(stdout, format!("{DOC_PROLOGUE}\n{DOC_RUN1}\n{DOC_RUN2}"));
}

#[test]
fn export_command_trims_trailing_exposed_terminal_controls() {
    let body = "「大きな望遠鏡で銀河をよっく調べると銀河は大体何でしょう。」";
    let mut text = document_text_from_str(body);
    text.extend_from_slice(&0xFE14u16.to_be_bytes());
    text.extend_from_slice(&0x0490u16.to_be_bytes());
    let bytes = cfb_with_streams(&[("/DocumentText", text)]);
    let stdout = run_export(&bytes, "text", None).unwrap();
    assert!(stdout.contains("大きな望遠鏡で銀河をよっく調べると銀河は大体何でしょう。"));
    assert!(!stdout.contains('\u{0490}') && !stdout.contains('\u{FE14}'));
}

#[test]
fn export_command_suppresses_trailing_isolated_marker_binary_leak() {
    let mut text = document_text_from_str(
        "「ではみなさんは、そういうふうに川だと云われたり、乳の流れたあとだと云われたりしていたこのぼんやりと白いものがほんとうは何かご承知ですか。」\n",
    );
    for unit in [0x000eu16, 0x0000, 0x1234, 0x5678, 0x001f, 0xfe01, 0x0200, 0x0302, 0x0200, 0x03ff, 0x0000] {
        text.extend_from_slice(&unit.to_be_bytes());
    }
    let bytes = cfb_with_streams(&[("/DocumentText", text)]);
    let stdout = run_export(&bytes, "text", Some("0")).unwrap();
    assert!(stdout.contains("「ではみなさんは、そういうふうに川だと云われたり"));
    assert!(
        !stdout.contains('\u{FE01}')
            && !stdout.contains('\u{0200}')
            && !stdout.contains('\u{0302}')
            && !stdout.contains('\u{03FF}'),
        "got: {stdout:?}"
    );
}

#[test]
fn export_command_with_sheet_argument() {
    let bytes = jtd_without_header();
    assert_eq!(run_export(&bytes, "text", Some("0")), Ok("銀河鉄道\n".to_string()));
}

#[test]
fn export_command_with_short_flags_and_sheet_name() {
    let bytes = jtd_without_header();
    assert_eq!(run_export(&bytes, "text", Some("タイトル")), Ok("銀河鉄道\n".to_string()));
}

#[test]
fn cat_command_reports_invalid_compressed_jttc_payload() {
    let mut compound = cfb::CompoundFile::create(Cursor::new(Vec::new())).unwrap();
    compound
        .create_stream("/JSCompDocument")
        .unwrap()
        .write_all(b"\x26\0JustCompressedDocument\0-lh5-\0payload")
        .unwrap();
    let bytes = compound.into_inner().into_inner();
    let error = cat_text(&bytes).unwrap_err();
    assert!(error.message().contains("invalid data"));
}

#[test]
fn cat_command_extracts_embedded_document_text() {
    let mut compound = cfb::CompoundFile::create(Cursor::new(Vec::new())).unwrap();
    let mut embedded = b"prefix SsmgV.01".to_vec();
    embedded.extend_from_slice(&[0x00, 0x1f]);
    for unit in "Note".encode_utf16() {
        embedded.extend_from_slice(&unit.to_be_bytes());
    }
    compound
        .create_stream("/JSSlipObject1")
        .unwrap()
        .write_all(&embedded)
        .unwrap();
    let bytes = compound.into_inner().into_inner();
    assert_eq!(cat_text(&bytes).unwrap(), "Note");
}
