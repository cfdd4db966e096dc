use rjtd::model::{Document, DocumentSheet, IchitaroParser, parse_document, read_footnote_text};
use std::io::{Cursor, Write};

fn footnote_stream_with_entries(entries: &[(&str, &str)]) -> Vec<u8> {
    let mut bytes = b"SsmgV.01".to_vec();
    for (label, body) in entries {
        for unit in [0x001cu16, 0x0001, 0x0007, 0x0000, 0x0000, 0x0001, 0x001d] {
            bytes.extend_from_slice(&unit.to_be_bytes());
        }
        for unit in label.encode_utf16() {
            bytes.extend_from_slice(&unit.to_be_bytes());
        }
        for unit in [0x001eu16, 0x0005, 0x0000, 0x0001, 0x001f] {
            bytes.extend_from_slice(&unit.to_be_bytes());
        }
        for unit in body.encode_utf16() {
            bytes.extend_from_slice(&unit.to_be_bytes());
        }
    }
    bytes
}

#[test]
fn from_plain_text_round_trips_lines_into_paragraphs() {
    let doc = Document::from_plain_text("一行目\r\n二行目\n\n三行目\n");

    assert_eq!(doc.blocks().len(), 3);
    assert_eq!(doc.plain_text(), "一行目\n二行目\n三行目\n");
}

#[test]
fn plain_text_single_sheet_appends_trimmed_footnote() {
    let mut doc = Document::from_plain_text("正文です。\n");
    doc.push_sheet(
        DocumentSheet::new(0, "タイトル", "", None, "正文です。\n")
            .with_footnote_text("[1] 脚注本文  烏瓜"),
    );

    assert_eq!(doc.plain_text(), "正文です。\n\n\n[1] 脚注本文  烏瓜");
}

#[test]
fn plain_text_multiple_sheets_uses_bare_name_and_single_newline() {
    let mut doc = Document::from_plain_text("本体テキスト\n");
    doc.push_sheet(
        DocumentSheet::new(0, "シートA", "", None, "A本文\n").with_footnote_text("A脚注"),
    );
    doc.push_sheet(DocumentSheet::new(
        1,
        "シートB",
        "/ObjectSheets/DocSheet/DOCS_0000",
        None,
        "B本文\n",
    ));
    doc.push_sheet(
        DocumentSheet::new(
            2,
            "シートC",
            "/ObjectSheets/DocSheet/DOCS_0001",
            None,
            "C本文\n",
        )
        .with_footnote_text("C脚注"),
    );

    assert_eq!(
        doc.plain_text(),
        "シートA\nA本文\n\nA脚注\n\nシートB\nB本文\n\nシートC\nC本文\n\nC脚注"
    );
    let rendered = doc.plain_text();
    assert!(!rendered.starts_with("# "));
    for name in ["シートA", "シートB", "シートC"] {
        assert!(
            rendered.contains(&format!("\n{}\n", name))
                || rendered.starts_with(&format!("{}\n", name)),
            "bare sheet name line missing: {name}"
        );
    }
}

#[test]
fn read_footnote_text_pairs_each_anchor_label_with_its_body() {
    let bytes = footnote_stream_with_entries(&[
        ("[1]", "烏瓜（からすうり） ウリ科の植物。\n"),
        ("(2)", "星祭 銀河のお祭り。\n"),
        ("1)", "川の光は青く光る。\n"),
    ]);

    assert_eq!(
        read_footnote_text(&bytes),
        Some(
            "[1] 烏瓜（からすうり） ウリ科の植物。\n(2) 星祭 銀河のお祭り。\n1) 川の光は青く光る。"
                .to_owned()
        )
    );
}

#[test]
fn read_footnote_text_drops_trailing_sentinel_label_without_body() {
    let mut bytes = footnote_stream_with_entries(&[("[1]", "ケンタウル祭 銀河のお祭り。\n")]);
    for unit in [0x001cu16, 0x0001, 0x0007, 0x0000, 0x0000, 0x0001, 0x001d] {
        bytes.extend_from_slice(&unit.to_be_bytes());
    }
    for unit in "Note".encode_utf16() {
        bytes.extend_from_slice(&unit.to_be_bytes());
    }
    for unit in [0x001eu16, 0x0005, 0x0000, 0x0001, 0x001f] {
        bytes.extend_from_slice(&unit.to_be_bytes());
    }

    let text = read_footnote_text(&bytes).expect("footnote text present");
    assert_eq!(text, "[1] ケンタウル祭 銀河のお祭り。");
    assert!(!text.contains("Note"));
}

#[test]
fn read_footnote_text_returns_none_for_body_without_anchor() {
    let mut bytes = b"SsmgV.01".to_vec();
    bytes.extend_from_slice(&[0x00, 0x1f]);
    for unit in "アンカーなし本文".encode_utf16() {
        bytes.extend_from_slice(&unit.to_be_bytes());
    }

    assert_eq!(
        read_footnote_text(&bytes),
        Some("アンカーなし本文".to_owned())
    );
}

const HEADER_TEXT_SEGMENT_NAME: [u16; 4] = [0x5465, 0x7874, 0x562e, 0x3031];
const HEADER_TEXT_SLOT_PITCH_WORDS: usize = 128;
const HEADER_TEXT_TAIL_TABLE: [u16; 8] = [
    0x001b, 0x0000, 0x0001, 0x0000, 0x0001, 0x0000, 0x005d, 0x00a9,
];

fn extend_words(bytes: &mut Vec<u8>, words: &[u16]) {
    for word in words {
        bytes.extend_from_slice(&word.to_be_bytes());
    }
}

fn header_raw_span(text: &str) -> Vec<u16> {
    text.encode_utf16().collect()
}

fn header_textv_slot(span: &[u16]) -> Vec<u16> {
    let mut slot = Vec::new();
    slot.extend_from_slice(&HEADER_TEXT_SEGMENT_NAME);
    slot.extend_from_slice(&[0x0000, span.len() as u16]);
    slot.extend_from_slice(span);
    slot.resize(HEADER_TEXT_SLOT_PITCH_WORDS, 0x0000);
    slot
}

fn header_payload(slots: &[Vec<u16>]) -> Vec<u8> {
    let mut bytes: Vec<u8> = Vec::new();
    extend_words(
        &mut bytes,
        &[
            0x5373,
            0x6d67,
            0x562e,
            0x3031,
            0x0000,
            0x0001,
            0x0000,
            0x0100,
            0x0000,
            slots.len() as u16,
        ],
    );
    for slot in slots {
        extend_words(&mut bytes, slot);
    }
    extend_words(&mut bytes, &HEADER_TEXT_TAIL_TABLE);
    bytes
}

fn cfb_with_streams(document_text: &[u8], header: Option<&[u8]>) -> Vec<u8> {
    let mut compound = cfb::CompoundFile::create(Cursor::new(Vec::new())).unwrap();
    compound
        .create_stream("/\u{4}JSRV_SegmentInformation")
        .unwrap()
        .write_all(b"segment")
        .unwrap();
    compound
        .create_stream("/DocInfo")
        .unwrap()
        .write_all(b"doc")
        .unwrap();
    compound.create_storage("/BodyText").unwrap();
    compound
        .create_stream("/BodyText/Section0")
        .unwrap()
        .write_all(b"hello")
        .unwrap();
    compound
        .create_stream("/DocumentText")
        .unwrap()
        .write_all(document_text)
        .unwrap();
    if let Some(header) = header {
        compound
            .create_stream("/Header")
            .unwrap()
            .write_all(header)
            .unwrap();
    }
    compound.into_inner().into_inner()
}

#[test]
fn parse_keeps_header_text_from_cfb() {
    let mut document_text: Vec<u8> = Vec::new();
    extend_words(&mut document_text, &[0x5373, 0x6d67, 0x562e, 0x3031]);
    extend_words(&mut document_text, &[0x001f]);
    extend_words(&mut document_text, header_raw_span("銀河鉄道\n").as_slice());
    extend_words(&mut document_text, &[0x0000]);

    let header = header_payload(&[
        header_textv_slot(&header_raw_span("- ? -")),
        header_textv_slot(&header_raw_span("Ver.1.0")),
    ]);
    let bytes = cfb_with_streams(&document_text, Some(&header));
    let document = IchitaroParser
        .parse_with_budget(
            &bytes,
            &mut rjtd::ParseLimits::default().resource_budget(),
        )
        .expect("parse should succeed");

    assert_eq!(
        document.header_text().map(str::to_owned),
        Some("- 1 -\nVer.1.0".to_owned())
    );
}

#[test]
fn parse_keeps_header_text_none_when_stream_missing() {
    let mut document_text: Vec<u8> = Vec::new();
    extend_words(&mut document_text, &[0x5373, 0x6d67, 0x562e, 0x3031]);
    extend_words(&mut document_text, &[0x001f]);
    extend_words(&mut document_text, header_raw_span("銀河鉄道\n").as_slice());
    extend_words(&mut document_text, &[0x0000]);

    let bytes = cfb_with_streams(&document_text, None);
    let document = IchitaroParser
        .parse_with_budget(
            &bytes,
            &mut rjtd::ParseLimits::default().resource_budget(),
        )
        .expect("parse should succeed");

    assert_eq!(document.header_text(), None);
}

fn make_document_text(text: &str) -> Vec<u8> {
    let mut bytes = b"SsmgV.01".to_vec();
    bytes.extend_from_slice(&[0x00, 0x1f]);
    for unit in text.encode_utf16() {
        bytes.extend_from_slice(&unit.to_be_bytes());
    }
    bytes
}

#[test]
fn synthetic_multi_sheet_parsing() {
    let mut compound = cfb::CompoundFile::create(Cursor::new(Vec::new())).unwrap();
    compound
        .create_stream("/\u{4}JSRV_SegmentInformation")
        .unwrap()
        .write_all(b"segment")
        .unwrap();
    compound
        .create_stream("/DocInfo")
        .unwrap()
        .write_all(b"doc")
        .unwrap();

    compound
        .create_stream("/DocumentText")
        .unwrap()
        .write_all(&make_document_text("銀河鉄道の夜\n宮沢賢治"))
        .unwrap();

    let mut item_info = Vec::new();
    item_info.extend_from_slice(&2u32.to_le_bytes());

    item_info.extend_from_slice(&1u32.to_le_bytes());
    let name1: Vec<u16> = "一、午後の授業".encode_utf16().collect();
    item_info.extend_from_slice(&(name1.len() as u32).to_le_bytes());
    for u in name1 {
        item_info.extend_from_slice(&u.to_le_bytes());
    }
    item_info.extend_from_slice(&0u32.to_le_bytes());
    item_info.extend_from_slice(&[0u8; 26]);

    item_info.extend_from_slice(&1u32.to_le_bytes());
    let name2: Vec<u16> = "二、活版所".encode_utf16().collect();
    item_info.extend_from_slice(&(name2.len() as u32).to_le_bytes());
    for u in name2 {
        item_info.extend_from_slice(&u.to_le_bytes());
    }
    item_info.extend_from_slice(&1u32.to_le_bytes());
    item_info.extend_from_slice(&[0u8; 26]);

    compound.create_storage("/ObjectSheets").unwrap();
    compound.create_storage("/ObjectSheets/DocSheet").unwrap();
    compound
        .create_stream("/ObjectSheets/DocSheet/DocItemInfo")
        .unwrap()
        .write_all(&item_info)
        .unwrap();

    let text1 = "「ではみなさんは、そういうふうに川だと云われたり、乳の流れたあとだと云われたりしていたこのぼんやりと白いものがほんとうは何かご承知ですか。」";
    compound.create_storage("/ObjectSheets/DocSheet/DOCS_0000").unwrap();
    compound
        .create_stream("/ObjectSheets/DocSheet/DOCS_0000/DocumentText")
        .unwrap()
        .write_all(&make_document_text(text1))
        .unwrap();

    let text2 = "ジョバンニは学校の門を出るとき、同じ組の七八人は家へ帰らずカムパネルラをまん中にして校庭の隅の桜の木のところに集まっていました。";
    compound.create_storage("/ObjectSheets/DocSheet/DOCS_0001").unwrap();
    compound
        .create_stream("/ObjectSheets/DocSheet/DOCS_0001/DocumentText")
        .unwrap()
        .write_all(&make_document_text(text2))
        .unwrap();

    let bytes = compound.into_inner().into_inner();
    let doc = parse_document(&bytes).expect("parse synthetic multi-sheet");

    let sheets = doc.sheets();
    assert_eq!(sheets.len(), 3);
    assert_eq!(sheets[0].name(), "タイトル");
    assert_eq!(sheets[1].name(), "一、午後の授業");
    assert_eq!(sheets[2].name(), "二、活版所");

    assert_eq!(sheets[0].text(), "銀河鉄道の夜\n宮沢賢治\n");
    assert_eq!(sheets[1].text(), text1);
    assert_eq!(sheets[2].text(), text2);

    assert_eq!(
        doc.sheet_by_name("一、午後の授業").unwrap().text(),
        text1
    );
    assert_eq!(
        doc.sheet_plain_text(2).unwrap(),
        text2
    );

    let full_text = doc.plain_text();
    // In the plain text a sheet's name stands bare on its own line (no "# " heading mark),
    // followed by a single line break, as `plain_text_multiple_sheets_uses_bare_name_and_single_newline`
    // also checks.
    assert!(full_text.contains("タイトル\n銀河鉄道の夜"));
    assert!(full_text.contains("\n\n一、午後の授業\n「ではみなさんは"));
    assert!(full_text.contains("\n\n二、活版所\nジョバンニは学校の門を出るとき"));
}

