use rjtd::cli::{
    ExportOptions, cat_text, escaped_path, escaped_text, export_options, export_text, hex_pair,
    parse_position, required_path, sheet_report, unescaped_path,
};
use rjtd::model::parse_document;
use std::io::{Cursor, Write};

fn document_text_fixture() -> Vec<u8> {
    let mut bytes = b"SsmgV.01".to_vec();
    bytes.extend_from_slice(&[0x00, 0x1f]);
    for unit in "銀河".encode_utf16() {
        bytes.extend_from_slice(&unit.to_be_bytes());
    }
    bytes.extend_from_slice(&[0x00, 0x1c]);
    bytes.extend_from_slice(&[0x00, 0x1f]);
    for unit in "鉄道\n".encode_utf16() {
        bytes.extend_from_slice(&unit.to_be_bytes());
    }
    bytes
}

fn tiny_cfb(extra: &[(&str, Vec<u8>)]) -> Vec<u8> {
    let mut compound = cfb::CompoundFile::create(Cursor::new(Vec::new())).unwrap();
    compound
        .create_stream("/DocInfo")
        .unwrap()
        .write_all(b"doc")
        .unwrap();
    compound
        .create_stream("/DocumentText")
        .unwrap()
        .write_all(&document_text_fixture())
        .unwrap();
    for (path, bytes) in extra {
        compound.create_stream(path).unwrap().write_all(bytes).unwrap();
    }
    compound.into_inner().into_inner()
}

fn args(items: &[&str]) -> Vec<String> {
    items.iter().map(|s| s.to_string()).collect()
}

#[test]
fn export_options_reads_long_and_short_flags() {
    let options = export_options(&args(&["--format", "text", "-s", "タイトル"])).unwrap();
    assert_eq!(options.format, "text");
    assert_eq!(options.sheet.as_deref(), Some("タイトル"));
    let options = export_options(&args(&["-f", "txt", "--format", "text"])).unwrap();
    assert_eq!(options.format, "text");
    assert_eq!(options.sheet, None);
}

#[test]
fn export_options_reports_each_error() {
    assert_eq!(
        export_options(&args(&[])),
        Err("usage: rjtd export <file> [-f|--format <txt|text>] [-s|--sheet <name|index>]".to_string())
    );
    assert_eq!(
        export_options(&args(&["--sheet"])),
        Err("missing value for `--sheet`".to_string())
    );
    assert_eq!(
        export_options(&args(&["--bogus"])),
        Err("unexpected export argument `--bogus`; usage: rjtd export <file> [-f|--format <txt|text>] [-s|--sheet <name|index>]".to_string())
    );
}

#[test]
fn required_path_names_the_command() {
    assert_eq!(required_path(Some("a.jtd".to_string()), "cat"), Ok("a.jtd".to_string()));
    assert_eq!(
        required_path(None, "cat"),
        Err("missing path for `cat`".to_string())
    );
}

#[test]
fn escapes_control_characters_in_paths_and_text() {
    assert_eq!(escaped_path("/\u{4}JSRV_SegmentInformation"), "/\\x04JSRV_SegmentInformation");
    assert_eq!(escaped_path("/Doc\u{7f}"), "/Doc\\x7F");
    assert_eq!(escaped_path("/本文"), "/本文");
    assert_eq!(escaped_text("a\nb\rc\td\u{1}"), "a\\nb\\rc\\td\\u0001");
}

#[test]
fn unescaped_path_undoes_escaped_path() {
    let path = "/\u{4}JSRV_SegmentInformation\u{1f}";
    assert_eq!(unescaped_path(&escaped_path(path)), Ok(path.to_string()));
    assert_eq!(unescaped_path("a\\b\\"), Ok("a\\b\\".to_string()));
    assert_eq!(unescaped_path("\\x4"), Err("incomplete \\x escape in stream path".to_string()));
    assert_eq!(unescaped_path("\\xg1"), Err("invalid hex escape digit: g".to_string()));
}

#[test]
fn hex_pair_reads_both_cases() {
    assert_eq!(hex_pair('0', '4'), Ok(0x04));
    assert_eq!(hex_pair('f', 'F'), Ok(0xff));
    assert_eq!(hex_pair('a', 'z'), Err("invalid hex escape digit: z".to_string()));
}

#[test]
fn parse_position_reads_like_usize_parse() {
    for text in ["0", "12", "+7", "007", "", "+", "-1", "1a", "99999999999999999999999999"] {
        assert_eq!(parse_position(text), text.parse::<usize>().ok(), "input {text:?}");
    }
}

#[test]
fn cat_command_extracts_document_text_runs() {
    let bytes = tiny_cfb(&[]);
    assert_eq!(cat_text(&bytes).unwrap(), "銀河鉄道\n");
}

#[test]
fn cat_text_reports_invalid_input() {
    let error = cat_text(b"not a compound file").unwrap_err();
    assert!(error.message().starts_with("invalid data: "));
}

#[test]
fn export_command_writes_text_from_document_model() {
    let document = parse_document(&tiny_cfb(&[])).unwrap();
    let options = ExportOptions { format: "text".to_string(), sheet: None };
    assert_eq!(export_text(&document, &options), Ok("銀河鉄道\n".to_string()));
    let options = ExportOptions { format: "txt".to_string(), sheet: None };
    assert_eq!(export_text(&document, &options), Ok("銀河鉄道\n".to_string()));
}

#[test]
fn export_command_rejects_unknown_format() {
    let document = parse_document(&tiny_cfb(&[])).unwrap();
    let options = ExportOptions { format: "docx".to_string(), sheet: None };
    assert_eq!(
        export_text(&document, &options),
        Err("unsupported export format: docx".to_string())
    );
    let options = ExportOptions { format: "docx".to_string(), sheet: Some("0".to_string()) };
    assert_eq!(
        export_text(&document, &options),
        Err("exporting specific sheet with format `docx` is not supported yet (use text)".to_string())
    );
}

#[test]
fn export_command_selects_sheet_by_position_or_name() {
    let document = parse_document(&tiny_cfb(&[])).unwrap();
    for sheet in ["0", "タイトル"] {
        let options = ExportOptions { format: "text".to_string(), sheet: Some(sheet.to_string()) };
        assert_eq!(export_text(&document, &options), Ok("銀河鉄道\n".to_string()));
    }
    let options = ExportOptions { format: "text".to_string(), sheet: Some("1".to_string()) };
    assert_eq!(export_text(&document, &options), Err("sheet `1` not found".to_string()));
}

#[test]
fn sheets_command_lists_sheets_for_single_sheet_document() {
    let document = parse_document(&tiny_cfb(&[])).unwrap();
    assert_eq!(sheet_report(&document), vec!["sheets\t1", "sheet\t0\tタイトル\t\t-"]);
}
