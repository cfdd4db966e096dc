use rjtd::document_text::{
    DocumentTextElement, DocumentTextMapKind, ParsedDocumentText, map_document_text, parse_document_text, read_document_text_payload_with_limits,
    trim_trailing_exposed_controls,
};
use rjtd::error::ErrorKind;
use rjtd::export::to_plain_text;
use rjtd::model::{Block, Document, Inline, Metadata, Paragraph, parse_document_with_limits};
use rjtd::ParseLimits;
use std::io::{Cursor, Write};

fn extend_units(bytes: &mut Vec<u8>, units: &[u16]) {
    for unit in units {
        bytes.extend_from_slice(&unit.to_be_bytes());
    }
}

fn extend_text(bytes: &mut Vec<u8>, text: &str) {
    for unit in text.encode_utf16() {
        bytes.extend_from_slice(&unit.to_be_bytes());
    }
}

fn paragraph_texts(document: &Document) -> Vec<String> {
    document
        .blocks()
        .iter()
        .map(|block| match block {
            Block::Paragraph(paragraph) => paragraph
                .inlines()
                .iter()
                .map(|inline| match inline {
                    Inline::Text(run) => run.text().to_string(),
                    Inline::Ruby(ruby) => ruby.base_text().to_string(),
                    Inline::Unknown(_) => String::new(),
                })
                .collect(),
            Block::Unknown(_) => String::new(),
        })
        .collect()
}

#[test]
fn plain_text_and_document_text_models_agree() {
    for text in ["", "一行目\r\n二行目\n\n三行目\n", "\r\r\na\rb\n", "no break", "\n\n"] {
        let plain = Document::from_plain_text(text);
        let built = Document::from_document_text(&ParsedDocumentText::from_text(text.to_string()));
        assert_eq!(plain.plain_text(), built.plain_text(), "input {text:?}");
        assert_eq!(paragraph_texts(&plain), paragraph_texts(&built), "input {text:?}");
    }
    let plain = Document::from_plain_text("\r\r\na\rb\n");
    assert_eq!(paragraph_texts(&plain), vec!["a", "b"]);
}

#[test]
fn built_paragraphs_show_the_non_empty_lines_of_the_stream() {
    let mut bytes = b"SsmgV.01".to_vec();
    extend_units(&mut bytes, &[0x001f]);
    extend_text(&mut bytes, "銀河\r\n鉄道");
    extend_units(&mut bytes, &[0x001c, 0x0001, 0x0007, 0x0000, 0x0000, 0x0003, 0x001d]);
    extend_text(&mut bytes, "の夜");
    extend_units(&mut bytes, &[0x001e, 0x001f]);
    extend_text(&mut bytes, "\n\n宮沢賢治");
    let parsed = parse_document_text(&bytes);
    let document = Document::from_document_text(&parsed);
    assert_eq!(paragraph_texts(&document), vec!["銀河", "鉄道の夜", "宮沢賢治"]);
    assert_eq!(document.plain_text(), "銀河\n鉄道の夜\n宮沢賢治\n");
}

#[test]
fn header_text_is_prepended_with_a_blank_line() {
    let document = Document::new(
        Metadata::default(),
        vec![Block::Paragraph(Paragraph::from_text("本文"))],
    );
    let without = to_plain_text(&document);
    let with = to_plain_text(&document.clone().with_header_text("- 1 -"));
    assert_eq!(without, "本文\n");
    assert_eq!(with, format!("- 1 -\n\n{without}"));
}

#[test]
fn trimming_exposed_controls_twice_changes_nothing_more() {
    for text in ["本文\u{fe14}\u{490}", "本文\u{400} \n", "a\u{fe14}b", "  \n"] {
        let once = trim_trailing_exposed_controls(text).to_string();
        assert_eq!(trim_trailing_exposed_controls(&once), once, "input {text:?}");
    }
    assert_eq!(trim_trailing_exposed_controls("本文\u{fe14}\u{490}"), "本文");
    assert_eq!(trim_trailing_exposed_controls("a\u{fe14}b"), "a\u{fe14}b");
}

fn cfb_with_stream(path: &str, payload: &[u8]) -> Vec<u8> {
    let mut compound = cfb::CompoundFile::create(Cursor::new(Vec::new())).unwrap();
    compound
        .create_stream(path)
        .unwrap()
        .write_all(payload)
        .unwrap();
    compound.into_inner().into_inner()
}

#[test]
fn each_error_kind_has_an_input() {
    let missing = cfb_with_stream("/Other", b"payload");
    let error = read_document_text_payload_with_limits(&missing, ParseLimits::default()).unwrap_err();
    assert_eq!(error.kind(), ErrorKind::NotFound);
    assert!(error.message().starts_with("not found: "));

    let error = read_document_text_payload_with_limits(b"plain bytes", ParseLimits::default()).unwrap_err();
    assert_eq!(error.kind(), ErrorKind::InvalidData);

    let small = ParseLimits { max_input_bytes: 4 };
    let error = parse_document_with_limits(&missing, small).unwrap_err();
    assert_eq!(error.kind(), ErrorKind::ResourceLimit);
    assert!(error.message().starts_with("resource limit exceeded: "));
}

#[test]
fn parse_document_keeps_root_sheet_text_and_footnotes() {
    let mut text = b"SsmgV.01".to_vec();
    extend_units(&mut text, &[0x001f]);
    extend_text(&mut text, "本文\n");
    let mut footnote = b"SsmgV.01".to_vec();
    extend_units(&mut footnote, &[0x001c, 0x0001, 0x0007, 0x0000, 0x0000, 0x0001, 0x001d]);
    extend_text(&mut footnote, "[1]");
    extend_units(&mut footnote, &[0x001e, 0x0005, 0x0000, 0x0001, 0x001f]);
    extend_text(&mut footnote, " 注の本文 ");
    let mut compound = cfb::CompoundFile::create(Cursor::new(Vec::new())).unwrap();
    compound.create_stream("/DocumentText").unwrap().write_all(&text).unwrap();
    compound.create_stream("/Footnote").unwrap().write_all(&footnote).unwrap();
    let bytes = compound.into_inner().into_inner();

    let document = rjtd::model::parse_document(&bytes).unwrap();
    assert_eq!(document.sheets().len(), 1);
    assert_eq!(document.sheets()[0].text(), "本文\n");
    assert_eq!(document.sheets()[0].footnote_text(), Some("[1] 注の本文"));
    assert_eq!(document.plain_text(), "本文\n\n\n[1] 注の本文");
    assert_eq!(document.sheet_plain_text(0), Some("本文\n"));
    assert_eq!(document.sheet_plain_text(1), None);
}

#[test]
fn reading_back_plain_text_gives_the_same_paragraphs() {
    for text in ["一行目\r\n二行目\n\n三行目\n", "a\rb\r\n\r\nc", "  空白行  \n\n"] {
        let document = Document::from_plain_text(text);
        let again = Document::from_plain_text(&document.plain_text());
        assert_eq!(paragraph_texts(&again), paragraph_texts(&document), "input {text:?}");
    }
}

#[test]
fn export_without_header_is_trimmed_plain_text() {
    let mut document = Document::from_plain_text("本体\n");
    document.push_sheet(rjtd::model::DocumentSheet::new(0, "A", "", None, "A本文\u{fe14}"));
    document.push_sheet(rjtd::model::DocumentSheet::new(1, "B", "/S", None, "B本文\u{fe14}"));
    let plain = document.plain_text();
    assert_eq!(plain, "A\nA本文\u{fe14}\n\nB\nB本文\u{fe14}");
    assert_eq!(to_plain_text(&document), trim_trailing_exposed_controls(&plain));
    assert_eq!(to_plain_text(&document), "A\nA本文\u{fe14}\n\nB\nB本文");
}

#[test]
fn map_and_parse_read_the_same_text() {
    let mut bytes = b"SsmgV.01".to_vec();
    extend_units(&mut bytes, &[0x001f]);
    extend_text(&mut bytes, "銀河");
    extend_units(&mut bytes, &[0x001c, 0x0001, 0x0007, 0x0000, 0x0000, 0x0003, 0x001d]);
    extend_text(&mut bytes, "鉄道");
    extend_units(&mut bytes, &[0x001e, 0x001f]);
    extend_text(&mut bytes, "の夜\n");
    extend_units(&mut bytes, &[0x0019]);
    let parsed = parse_document_text(&bytes);
    let parsed_text: String = parsed
        .elements()
        .iter()
        .map(|element| match element {
            DocumentTextElement::TextRun(text) => text.clone(),
            DocumentTextElement::InlineText(segment) => segment.text().to_string(),
            _ => String::new(),
        })
        .collect();
    let map = map_document_text(&bytes);
    let mapped: String = map
        .entries()
        .iter()
        .filter(|entry| {
            matches!(entry.kind(), DocumentTextMapKind::TextRun | DocumentTextMapKind::InlineText)
        })
        .map(|entry| entry.text().to_string())
        .collect();
    assert_eq!(parsed_text, "銀河鉄道の夜\n");
    assert_eq!(mapped, parsed_text);
    let mut last_end = 0;
    for entry in map.entries() {
        assert!(last_end <= entry.unit_start() && entry.unit_start() <= entry.unit_end());
        assert_eq!(entry.byte_start(), 2 * entry.unit_start());
        last_end = entry.unit_end();
    }
}

fn mixed_stream() -> Vec<u8> {
    let mut bytes = b"SsmgV.01".to_vec();
    extend_units(&mut bytes, &[0x001f]);
    extend_text(&mut bytes, "銀河");
    extend_units(&mut bytes, &[0x001c, 0x0001, 0x0007, 0x0000, 0x0000, 0x0003, 0x001d]);
    extend_text(&mut bytes, "鉄道");
    extend_units(&mut bytes, &[0x001e]);
    extend_units(&mut bytes, &[0x001c, 0x0001, 0x0007, 0x0000, 0x0001, 0x0082, 0x001d]);
    extend_text(&mut bytes, "てつどう");
    extend_units(&mut bytes, &[0x001e, 0x001f]);
    extend_text(&mut bytes, "の夜\n");
    extend_units(&mut bytes, &[0x0019, 0x0085]);
    bytes
}

#[test]
fn map_entries_are_non_empty_ranges_with_matching_kind_fields() {
    let bytes = mixed_stream();
    let map = map_document_text(&bytes);
    assert!(!map.entries().is_empty());
    for entry in map.entries() {
        assert!(entry.unit_start() < entry.unit_end());
        assert!(entry.unit_end() <= bytes.len() / 2);
        assert!(entry.contains_unit_offset(entry.unit_start()));
        assert!(!entry.contains_unit_offset(entry.unit_end()));
        let control = entry.kind() == DocumentTextMapKind::ControlBoundary;
        assert_eq!(control, entry.code().is_some());
        if control {
            assert_eq!(entry.unit_end(), entry.unit_start() + 1);
            assert_eq!(entry.text(), "");
            assert!(entry.selector().is_none());
        }
        let inline = matches!(
            entry.kind(),
            DocumentTextMapKind::InlineText | DocumentTextMapKind::SkippedInlineText
        );
        assert_eq!(inline, entry.selector().is_some());
        if entry.kind() == DocumentTextMapKind::InlineText {
            assert!(matches!(entry.selector(), Some(0x0001 | 0x0003 | 0x0013)));
        }
    }
}

#[test]
fn parsed_elements_keep_their_shapes() {
    let parsed = parse_document_text(&mixed_stream());
    let mut seen_inline = false;
    let mut seen_skipped = false;
    let mut seen_control = false;
    for element in parsed.elements() {
        match element {
            DocumentTextElement::InlineText(segment) => {
                seen_inline = true;
                assert!(matches!(segment.selector(), 0x0001 | 0x0003 | 0x0013));
                assert!(!segment.text().is_empty());
                assert!(segment.text().chars().all(|c| {
                    let v = c as u32;
                    !(v < 0x20 && c != '\t' && c != '\n' && c != '\r')
                        && !(0x7f..=0x9f).contains(&v)
                        && c != '\u{ffff}'
                }));
            }
            DocumentTextElement::SkippedInlineText(segment) => {
                seen_skipped = true;
                let context = segment.context();
                assert!(!context.is_empty() && context.len() <= 6);
                assert_eq!(segment.selector(), context.last().copied());
                let mut opening: Vec<u8> = Vec::new();
                for unit in context {
                    opening.extend_from_slice(&unit.to_be_bytes());
                }
                opening.extend_from_slice(&[0x00, 0x1d]);
                let raw = segment.raw_bytes();
                assert!(raw.starts_with(&opening));
                assert!(raw.ends_with(&[0x00, 0x1e]));
                assert_eq!(raw.len() % 2, 0);
                assert!(raw.len() <= 2 * (6 + 257));
            }
            DocumentTextElement::ControlBoundary(control) => {
                seen_control = true;
                let k = control.code();
                assert!(
                    (k < 0x20 && k != 0x09 && k != 0x0a && k != 0x0d)
                        || (0x7f..=0x9f).contains(&k)
                        || (0xd800..=0xdfff).contains(&k)
                        || k == 0xffff
                );
            }
            DocumentTextElement::TextRun(_) => {}
        }
    }
    assert!(seen_inline && seen_skipped && seen_control);
}

#[test]
fn trimming_removes_only_a_trailing_run_holding_an_exposed_control() {
    let trimmed = trim_trailing_exposed_controls("本文\u{0400} \n");
    assert_eq!(trimmed, "本文");
    assert_eq!(trim_trailing_exposed_controls("本文 \n"), "本文 \n");
    assert_eq!(trim_trailing_exposed_controls("\u{fe14}本文"), "\u{fe14}本文");
}
