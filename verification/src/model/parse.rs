//! Reading a whole document: body, header text, sheets and footnotes.
use vstd::prelude::*;

use super::blocks::built_blocks;
use super::{
    Document, DocumentSheet, DocumentView, SheetView, document_plain_text, opt_text,
    read_footnote_text, spec_document_plain_text, spec_footnote_text,
};
use crate::container::{stream_read, read_cfb_stream};
use crate::document_text::payload::{PayloadModel, names_document_text, spec_read_payload};
use crate::document_text::{
    elements_text, parse_document_text, read_document_text_payload_with_budget,
    spec_parse_document_text, trim_exposed,
};
use crate::error::{Error, ErrorKind, error_kind};
use crate::header_text::{HEADER_TEXT_PATH, read_header_text, spec_parse_header_text};
use crate::limits::{ParseLimits, ResourceBudget};
use crate::sheet::{
    DEFAULT_ROOT_SHEET_NAME, SheetItem, SheetModel, read_document_sheets, sheet_stream_path,
    spec_read_document_sheets,
};
use crate::strings::join_with;
use crate::text::{chars_of, is_blank, lemma_trim_empty, same_text, trim};

verus! {

/// Path of the root sheet's footnote stream.
pub const ROOT_FOOTNOTE_PATH: &'static str = "/Footnote";

/// The header and footer text of a compound file: the /Header lines joined with '\n', kept
/// only when the stream reads, parses and holds more than white space.
pub open spec fn spec_header_of(data: Seq<u8>) -> Option<Seq<char>> {
    match stream_read(data, HEADER_TEXT_PATH@) {
        Ok(stream) => match spec_parse_header_text(stream) {
            Some(lines) => {
                let t = join_with(lines, seq!['\n']);
                if trim(t).len() > 0 {
                    Some(t)
                } else {
                    None
                }
            },
            None => None,
        },
        Err(_) => None,
    }
}

/// The footnote text of the stream at `path`, when it reads and holds some.
pub open spec fn footnote_at(data: Seq<u8>, path: Seq<char>) -> Option<Seq<char>> {
    match stream_read(data, path) {
        Ok(stream) => spec_footnote_text(stream),
        Err(_) => None,
    }
}

/// A sheet stored at the root shows the document's text; another one the plain text of its
/// own DocumentText stream, or nothing when that stream cannot be read.
pub open spec fn sheet_text_of(data: Seq<u8>, item: SheetModel, root_text: Seq<char>) -> Seq<char> {
    if item.storage_path.len() == 0 || item.storage_path == seq!['/'] {
        root_text
    } else {
        match stream_read(data, sheet_stream_path(item.storage_path, "/DocumentText"@)) {
            Ok(stream) => trim_exposed(elements_text(spec_parse_document_text(stream))),
            Err(_) => Seq::empty(),
        }
    }
}

pub open spec fn sheet_of(data: Seq<u8>, item: SheetModel, root_text: Seq<char>) -> SheetView {
    SheetView {
        index: item.index,
        name: item.name,
        storage_path: item.storage_path,
        original_path: item.original_path,
        text: sheet_text_of(data, item, root_text),
        footnote_text: footnote_at(data, sheet_stream_path(item.storage_path, "/Footnote"@)),
    }
}

/// The single sheet of a document that lists none.
pub open spec fn root_sheet(data: Seq<u8>, root_text: Seq<char>) -> SheetView {
    SheetView {
        index: 0,
        name: DEFAULT_ROOT_SHEET_NAME@,
        storage_path: Seq::empty(),
        original_path: None,
        text: root_text,
        footnote_text: footnote_at(data, ROOT_FOOTNOTE_PATH@),
    }
}

/// The sheets the compound file lists, or the root sheet alone when it lists none or the
/// list cannot be read.
pub open spec fn spec_sheets(data: Seq<u8>, root_text: Seq<char>) -> Seq<SheetView> {
    match spec_read_document_sheets(data) {
        Some(items) => if items.len() > 0 {
            Seq::new(items.len(), |i: int| sheet_of(data, items[i], root_text))
        } else {
            seq![root_sheet(data, root_text)]
        },
        None => seq![root_sheet(data, root_text)],
    }
}

/// The document read from a compound file whose DocumentText payload is `p`.
pub open spec fn spec_document(data: Seq<u8>, p: PayloadModel) -> DocumentView {
    let blocks = built_blocks(p.elements);
    DocumentView {
        title: None,
        blocks,
        sheets: spec_sheets(data, spec_document_plain_text(blocks)),
        header_text: spec_header_of(data),
    }
}

/// Reading a document within an input limit of `max` bytes: it fails exactly as reading the
/// DocumentText payload fails.
pub open spec fn spec_parse_document(data: Seq<u8>, max: usize) -> Result<DocumentView, ErrorKind> {
    match spec_read_payload(data, max) {
        Ok(p) => Ok(spec_document(data, p)),
        Err(k) => Err(k),
    }
}

/// `r` is what `spec_parse_document` gives.
pub open spec fn document_result_matches(
    r: Result<Document, Error>,
    s: Result<DocumentView, ErrorKind>,
) -> bool {
    match s {
        Ok(d) => r matches Ok(x) && x@ == d,
        Err(k) => r matches Err(e) && error_kind(e) == k,
    }
}

/// Parses documents from bytes.
pub trait DocumentParser {
    fn parse(&self, data: &[u8]) -> Result<Document, Error>;
}

/// The parser of Ichitaro (JTD) compound files.
pub struct IchitaroParser;

fn copy_opt_string(o: &Option<String>) -> (r: Option<String>)
    ensures
        opt_text(r) == opt_text(*o),
{
    match o {
        Some(s) => Some(s.as_str().to_owned()),
        None => None,
    }
}

fn footnote_of_stream(data: &[u8], path: &str) -> (r: Option<String>)
    ensures
        opt_text(r) == footnote_at(data@, path@),
{
    match read_cfb_stream(data, path) {
        Ok(bytes) => read_footnote_text(bytes.as_slice()),
        Err(_) => None,
    }
}

fn sheet_text(data: &[u8], item: &SheetItem, root_text: &str) -> (r: String)
    ensures
        r@ == sheet_text_of(data@, item@, root_text@),
{
    let storage = item.storage_path();
    proof {
        reveal_strlit("/");
    }
    assert("/"@ =~= seq!['/']);
    if storage.is_empty() || same_text(storage, "/") {
        return root_text.to_owned();
    }
    let path = item.document_text_path();
    match read_cfb_stream(data, path.as_str()) {
        Ok(bytes) => parse_document_text(bytes.as_slice()).plain_text(),
        Err(_) => String::new(),
    }
}

impl IchitaroParser {
    /// Reads the document, its header text and its sheets, under `budget`.
    pub fn parse_with_budget(&self, data: &[u8], budget: &mut ResourceBudget) -> (r: Result<
        Document,
        Error,
    >)
        ensures
            document_result_matches(r, spec_parse_document(data@, old(budget).max_input_bytes())),
            final(budget).max_input_bytes() == old(budget).max_input_bytes(),
            r matches Err(e) ==> names_document_text(e),
    {
        let payload = match read_document_text_payload_with_budget(
            data,
            budget.decompression_budget_mut(),
        ) {
            Ok(p) => p,
            Err(e) => {
                return Err(e);
            },
        };
        let ghost p = payload@;
        let mut document = Document::from_document_text_payload(&payload);
        let ghost blocks = built_blocks(p.elements);
        match read_header_text(data) {
            Ok(Some(header)) => {
                let text = header.text();
                let chars = chars_of(text.as_str());
                proof {
                    lemma_trim_empty(chars@);
                }
                if !is_blank(chars.as_slice()) {
                    document = document.with_header_text(text.as_str());
                }
            },
            _ => {},
        }
        let root_text = document_plain_text(&document);
        let ghost root = root_text@;
        assert(root == spec_document_plain_text(blocks));
        let mut listed = false;
        match read_document_sheets(data) {
            Ok(infos) => {
                let ghost items = crate::sheet::sheet_views(infos@);
                let mut i: usize = 0;
                while i < infos.len()
                    invariant
                        items == crate::sheet::sheet_views(infos@),
                        i <= items.len(),
                        root == root_text@,
                        document@.blocks == blocks,
                        document@.title is None,
                        document@.header_text == spec_header_of(data@),
                        document@.sheets == Seq::new(
                            i as nat,
                            |k: int| sheet_of(data@, items[k], root),
                        ),
                    decreases items.len() - i,
                {
                    let info = &infos[i];
                    let text = sheet_text(data, info, root_text.as_str());
                    let footnote_path = info.footnote_path();
                    let footnote = footnote_of_stream(data, footnote_path.as_str());
                    let mut sheet = DocumentSheet::new(
                        info.index(),
                        info.name(),
                        info.storage_path(),
                        copy_opt_string(&info.original_path),
                        text.as_str(),
                    );
                    match footnote {
                        Some(f) => {
                            sheet = sheet.with_footnote_text(f.as_str());
                        },
                        None => {},
                    }
                    assert(sheet@ == sheet_of(data@, items[i as int], root));
                    let ghost before = document@.sheets;
                    document.push_sheet(sheet);
                    i = i + 1;
                    assert(document@.sheets =~= Seq::new(
                        i as nat,
                        |k: int| sheet_of(data@, items[k], root),
                    ));
                }
                listed = infos.len() > 0;
            },
            Err(_) => {},
        }
        if !listed {
            let footnote = footnote_of_stream(data, ROOT_FOOTNOTE_PATH);
            let mut sheet = DocumentSheet::new(0, DEFAULT_ROOT_SHEET_NAME, "", None, root_text.as_str());
            match footnote {
                Some(f) => {
                    sheet = sheet.with_footnote_text(f.as_str());
                },
                None => {},
            }
            proof {
                reveal_strlit("");
            }
            assert(""@ =~= Seq::<char>::empty());
            assert(sheet@ == root_sheet(data@, root));
            document.push_sheet(sheet);
        }
        assert(document@.sheets =~= spec_sheets(data@, root));
        Ok(document)
    }
}

impl DocumentParser for IchitaroParser {
    fn parse(&self, data: &[u8]) -> (r: Result<Document, Error>)
        ensures
            document_result_matches(r, spec_parse_document(data@, crate::limits::DEFAULT_MAX_INPUT_BYTES)),
            r matches Err(e) ==> names_document_text(e),
    {
        let mut budget = ParseLimits::default().resource_budget();
        match budget.check_input_size(data.len()) {
            Ok(()) => {},
            Err(e) => {
                return Err(e);
            },
        }
        self.parse_with_budget(data, &mut budget)
    }
}

/// Reads a document with the default limits.
pub fn parse_document(data: &[u8]) -> (r: Result<Document, Error>)
    ensures
        document_result_matches(r, spec_parse_document(data@, crate::limits::DEFAULT_MAX_INPUT_BYTES)),
        r matches Err(e) ==> names_document_text(e),
{
    parse_document_with_limits(data, ParseLimits::default())
}

/// Reads a document within `limits`: inputs larger than `limits.max_input_bytes` are refused
/// with `Error::ResourceLimit`.
pub fn parse_document_with_limits(data: &[u8], limits: ParseLimits) -> (r: Result<Document, Error>)
    ensures
        document_result_matches(r, spec_parse_document(data@, limits.max_input_bytes)),
        r matches Err(e) ==> names_document_text(e),
{
    let mut budget = limits.resource_budget();
    parse_document_with_budget(data, &mut budget)
}

fn parse_document_with_budget(data: &[u8], budget: &mut ResourceBudget) -> (r: Result<Document, Error>)
    ensures
        document_result_matches(r, spec_parse_document(data@, old(budget).max_input_bytes())),
        r matches Err(e) ==> names_document_text(e),
{
    match budget.check_input_size(data.len()) {
        Ok(()) => {},
        Err(e) => {
            return Err(e);
        },
    }
    IchitaroParser.parse_with_budget(data, budget)
}

} // verus!
