//! The document model: paragraphs built from DocumentText, sheets, header text.
use vstd::prelude::*;

pub mod blocks;
pub mod lines;
pub mod parse;

pub use blocks::{
    Block, Inline, Paragraph, RubyAnnotation, StyleRef, TextRun, UnknownBlock, UnknownObject,
};
pub use parse::{DocumentParser, IchitaroParser, parse_document, parse_document_with_limits};
pub use crate::sheet::{DocumentSheetInfo, SheetItem};

use blocks::{
    BlockView, DocumentTextModelBuilder, InlineView, block_line, block_views,
    built_blocks, builder_after, inline_views, inlines_text,
    lemma_built_blocks_show_text_lines, paragraphs_show, text_paragraph,
};
use lines::{
    LineSplit, lemma_text_lines_of_lines_text, lemma_text_lines_ok, lines_text, no_split,
    split_char, split_from, text_lines,
};
use crate::document_text::{
    DocumentTextElement, DocumentTextPayload, ElementModel, InlineModel, ParsedDocumentText,
    element_views,
    elements_text, has_exposed_from, is_exposed_terminal_control, parse_document_text,
    spec_parse_document_text, text_elements, trailing_region, trim_exposed,
    trim_trailing_exposed_controls,
};
use crate::text::{chars_of, extend_chars, push_str_chars, same_text, string_of, trim, trimmed};

verus! {

// ----------------------------------------------------------------------------------------
// Metadata

#[derive(Debug, Clone, PartialEq, Eq)]
pub struct Metadata {
    pub(crate) title: Option<String>,
}

/// Character view of an optional string.
pub open spec fn opt_text(o: Option<String>) -> Option<Seq<char>> {
    match o {
        Some(s) => Some(s@),
        None => None,
    }
}

impl View for Metadata {
    type V = Option<Seq<char>>;

    closed spec fn view(&self) -> Option<Seq<char>> {
        opt_text(self.title)
    }
}

fn opt_str(o: &Option<String>) -> (r: Option<&str>)
    ensures
        opt_text(*o) == match r {
            Some(s) => Some(s@),
            None => None::<Seq<char>>,
        },
{
    match o {
        Some(s) => Some(s.as_str()),
        None => None,
    }
}

impl Default for Metadata {
    fn default() -> (r: Self)
        ensures
            r@ == None::<Seq<char>>,
    {
        Metadata::new(None)
    }
}

impl Metadata {
    pub fn new(title: Option<String>) -> (r: Self)
        ensures
            r@ == opt_text(title),
    {
        Metadata { title }
    }

    pub fn title(&self) -> (r: Option<&str>)
        ensures
            self@ == match r {
                Some(s) => Some(s@),
                None => None::<Seq<char>>,
            },
    {
        opt_str(&self.title)
    }
}

// ----------------------------------------------------------------------------------------
// Sheets

/// A sheet of the document: where it is stored, its text, its footnotes.
pub struct SheetView {
    pub index: int,
    pub name: Seq<char>,
    pub storage_path: Seq<char>,
    pub original_path: Option<Seq<char>>,
    pub text: Seq<char>,
    pub footnote_text: Option<Seq<char>>,
}

#[derive(Debug, Clone, PartialEq, Eq)]
pub struct DocumentSheet {
    index: usize,
    name: String,
    storage_path: String,
    original_path: Option<String>,
    text: String,
    footnote_text: Option<String>,
}

impl View for DocumentSheet {
    type V = SheetView;

    closed spec fn view(&self) -> SheetView {
        SheetView {
            index: self.index as int,
            name: self.name@,
            storage_path: self.storage_path@,
            original_path: opt_text(self.original_path),
            text: self.text@,
            footnote_text: opt_text(self.footnote_text),
        }
    }
}

pub open spec fn sheet_views(v: Seq<DocumentSheet>) -> Seq<SheetView> {
    Seq::new(v.len(), |i: int| v[i]@)
}

impl DocumentSheet {
    pub fn new(
        index: usize,
        name: &str,
        storage_path: &str,
        original_path: Option<String>,
        text: &str,
    ) -> (r: Self)
        ensures
            r@ == (SheetView {
                index: index as int,
                name: name@,
                storage_path: storage_path@,
                original_path: opt_text(original_path),
                text: text@,
                footnote_text: None,
            }),
    {
        DocumentSheet {
            index,
            name: name.to_owned(),
            storage_path: storage_path.to_owned(),
            original_path,
            text: text.to_owned(),
            footnote_text: None,
        }
    }

    pub fn with_footnote_text(self, footnote_text: &str) -> (r: Self)
        ensures
            r@ == (SheetView { footnote_text: Some(footnote_text@), ..self@ }),
    {
        let mut this = self;
        this.footnote_text = Some(footnote_text.to_owned());
        this
    }

    pub fn index(&self) -> (r: usize)
        ensures
            r == self@.index,
    {
        self.index
    }

    pub fn name(&self) -> (r: &str)
        ensures
            r@ == self@.name,
    {
        self.name.as_str()
    }

    pub fn storage_path(&self) -> (r: &str)
        ensures
            r@ == self@.storage_path,
    {
        self.storage_path.as_str()
    }

    pub fn original_path(&self) -> (r: Option<&str>)
        ensures
            self@.original_path == match r {
                Some(s) => Some(s@),
                None => None::<Seq<char>>,
            },
    {
        opt_str(&self.original_path)
    }

    pub fn text(&self) -> (r: &str)
        ensures
            r@ == self@.text,
    {
        self.text.as_str()
    }

    pub fn footnote_text(&self) -> (r: Option<&str>)
        ensures
            self@.footnote_text == match r {
                Some(s) => Some(s@),
                None => None::<Seq<char>>,
            },
    {
        opt_str(&self.footnote_text)
    }
}

// ----------------------------------------------------------------------------------------
// Plain text of blocks and sheets

/// Each paragraph's text followed by '\n'; unknown blocks show nothing.
pub open spec fn blocks_text(bs: Seq<BlockView>) -> Seq<char>
    decreases bs.len(),
{
    if bs.len() == 0 {
        Seq::empty()
    } else if bs.last() is Paragraph {
        blocks_text(bs.drop_last()) + block_line(bs.last()) + seq!['\n']
    } else {
        blocks_text(bs.drop_last())
    }
}

/// The plain text of a document's blocks: paragraph lines, trailing exposed controls dropped.
pub open spec fn spec_document_plain_text(bs: Seq<BlockView>) -> Seq<char> {
    trim_exposed(blocks_text(bs))
}

/// A footnote text after a blank line, trimmed; nothing without a footnote.
pub open spec fn footnote_suffix(f: Option<Seq<char>>) -> Seq<char> {
    match f {
        Some(t) => seq!['\n', '\n'] + trim(t),
        None => Seq::empty(),
    }
}

/// One sheet in a multi-sheet rendering: its bare name on a line, its trimmed text, its
/// footnotes.
pub open spec fn sheet_section(s: SheetView) -> Seq<char> {
    s.name + seq!['\n'] + trim(s.text) + footnote_suffix(s.footnote_text)
}

/// The sections of the sheets with a blank line between consecutive ones.
pub open spec fn sheets_text(ss: Seq<SheetView>) -> Seq<char>
    decreases ss.len(),
{
    if ss.len() == 0 {
        Seq::empty()
    } else if ss.len() == 1 {
        sheet_section(ss[0])
    } else {
        sheets_text(ss.drop_last()) + seq!['\n', '\n'] + sheet_section(ss.last())
    }
}

/// Paragraphs that show some lines give each line followed by '\n'.
pub proof fn lemma_blocks_text_of_lines(bs: Seq<BlockView>, lines: Seq<Seq<char>>)
    requires
        paragraphs_show(bs, lines),
    ensures
        blocks_text(bs) == lines_text(lines),
    decreases bs.len(),
{
    if bs.len() > 0 {
        let n = bs.len() - 1;
        assert(bs[n] is Paragraph);
        assert(block_line(bs[n]) == lines[n]);
        assert(paragraphs_show(bs.drop_last(), lines.drop_last())) by {
            assert forall|i: int| 0 <= i < bs.drop_last().len() implies (#[trigger] bs.drop_last()[i])
                is Paragraph by {
                assert(bs.drop_last()[i] == bs[i]);
            }
            assert forall|i: int| 0 <= i < bs.drop_last().len() implies block_line(
                #[trigger] bs.drop_last()[i],
            ) == lines.drop_last()[i] by {
                assert(bs.drop_last()[i] == bs[i]);
            }
        }
        lemma_blocks_text_of_lines(bs.drop_last(), lines.drop_last());
    }
}

// ----------------------------------------------------------------------------------------
// The document

pub struct DocumentView {
    pub title: Option<Seq<char>>,
    pub blocks: Seq<BlockView>,
    pub sheets: Seq<SheetView>,
    pub header_text: Option<Seq<char>>,
}

/// The plain text of a document: with at most one sheet, the blocks' text and the sheet's
/// footnotes; with several, each sheet's section in order.
pub open spec fn spec_plain_text(d: DocumentView) -> Seq<char> {
    if d.sheets.len() <= 1 {
        spec_document_plain_text(d.blocks) + if d.sheets.len() == 1 {
            footnote_suffix(d.sheets[0].footnote_text)
        } else {
            Seq::empty()
        }
    } else {
        sheets_text(d.sheets)
    }
}

/// The paragraphs of a plain text: one unstyled paragraph per non-empty line.
pub open spec fn plain_text_blocks(t: Seq<char>) -> Seq<BlockView> {
    let lines = text_lines(t);
    Seq::new(lines.len(), |i: int| BlockView::Paragraph(text_paragraph(lines[i])))
}

/// Position of the first sheet named `name`, from `i` on.
pub open spec fn sheet_named(ss: Seq<SheetView>, name: Seq<char>, i: int) -> Option<int>
    decreases ss.len() - i,
{
    if i < 0 || i >= ss.len() {
        None
    } else if ss[i].name == name {
        Some(i)
    } else {
        sheet_named(ss, name, i + 1)
    }
}

#[derive(Debug, Clone, PartialEq, Eq)]
pub struct Document {
    metadata: Metadata,
    blocks: Vec<Block>,
    sheets: Vec<DocumentSheet>,
    header_text: Option<String>,
}

impl View for Document {
    type V = DocumentView;

    closed spec fn view(&self) -> DocumentView {
        DocumentView {
            title: self.metadata@,
            blocks: block_views(self.blocks@),
            sheets: sheet_views(self.sheets@),
            header_text: opt_text(self.header_text),
        }
    }
}

impl Default for Document {
    fn default() -> (r: Self)
        ensures
            r@ == (DocumentView {
                title: None,
                blocks: Seq::empty(),
                sheets: Seq::empty(),
                header_text: None,
            }),
    {
        let blocks: Vec<Block> = Vec::new();
        assert(block_views(blocks@) =~= Seq::<BlockView>::empty());
        Document::new(Metadata::default(), blocks)
    }
}

fn build_blocks(elements: &[DocumentTextElement]) -> (r: Vec<Block>)
    ensures
        block_views(r@) == built_blocks(element_views(elements@)),
{
    let ghost els = element_views(elements@);
    let mut builder = DocumentTextModelBuilder::new();
    let mut i: usize = 0;
    assert(els.take(0) =~= Seq::<ElementModel>::empty());
    while i < elements.len()
        invariant
            els == element_views(elements@),
            i <= els.len(),
            builder@ == builder_after(els.take(i as int)),
        decreases els.len() - i,
    {
        match &elements[i] {
            DocumentTextElement::TextRun(text) => builder.push_text_run(text.as_str()),
            DocumentTextElement::InlineText(segment) => builder.push_inline_text(segment),
            DocumentTextElement::SkippedInlineText(segment) => builder.push_skipped_inline(segment),
            DocumentTextElement::ControlBoundary(control) => builder.push_control_boundary(control),
        }
        assert(els.take(i + 1).drop_last() =~= els.take(i as int));
        i = i + 1;
    }
    assert(els.take(i as int) =~= els);
    builder.finish()
}

impl Document {
    pub fn new(metadata: Metadata, blocks: Vec<Block>) -> (r: Self)
        ensures
            r@ == (DocumentView {
                title: metadata@,
                blocks: block_views(blocks@),
                sheets: Seq::empty(),
                header_text: None,
            }),
    {
        let r = Document { metadata, blocks, sheets: Vec::new(), header_text: None };
        assert(r@.sheets =~= Seq::<SheetView>::empty());
        r
    }

    /// Keeps the header and footer text, shown before the body.
    pub fn with_header_text(self, header_text: &str) -> (r: Self)
        ensures
            r@ == (DocumentView { header_text: Some(header_text@), ..self@ }),
    {
        let mut this = self;
        this.header_text = Some(header_text.to_owned());
        this
    }

    pub fn header_text(&self) -> (r: Option<&str>)
        ensures
            self@.header_text == match r {
                Some(s) => Some(s@),
                None => None::<Seq<char>>,
            },
    {
        opt_str(&self.header_text)
    }

    /// One paragraph per non-empty line; "\r\n", '\r' and '\n' all end a line.
    pub fn from_plain_text(text: &str) -> (r: Self)
        ensures
            r@ == (DocumentView {
                title: None,
                blocks: plain_text_blocks(text@),
                sheets: Seq::empty(),
                header_text: None,
            }),
    {
        let s = chars_of(text);
        let mut blocks: Vec<Block> = Vec::new();
        let mut line: Vec<char> = Vec::new();
        let mut i: usize = 0;
        while i < s.len()
            invariant
                s@ == text@,
                i <= s@.len(),
                split_from(no_split(), s@.take(i as int)).open == line@,
                block_views(blocks@) == Seq::new(
                    split_from(no_split(), s@.take(i as int)).done.len(),
                    |k: int|
                        BlockView::Paragraph(
                            text_paragraph(split_from(no_split(), s@.take(i as int)).done[k]),
                        ),
                ),
            decreases s@.len() - i,
        {
            let ghost before = split_from(no_split(), s@.take(i as int));
            let ghost bv = block_views(blocks@);
            let c = s[i];
            assert(s@.take(i + 1).drop_last() =~= s@.take(i as int));
            if c == '\r' || c == '\n' {
                if line.len() > 0 {
                    let piece = string_of(line.as_slice());
                    blocks.push(Block::Paragraph(Paragraph::from_text(piece.as_str())));
                    line = Vec::new();
                    assert(block_views(blocks@) =~= bv.push(
                        BlockView::Paragraph(text_paragraph(before.open)),
                    ));
                }
            } else {
                line.push(c);
            }
            i = i + 1;
            assert(block_views(blocks@) =~= Seq::new(
                split_from(no_split(), s@.take(i as int)).done.len(),
                |k: int|
                    BlockView::Paragraph(
                        text_paragraph(split_from(no_split(), s@.take(i as int)).done[k]),
                    ),
            ));
        }
        assert(s@.take(i as int) =~= text@);
        let ghost bv = block_views(blocks@);
        if line.len() > 0 {
            let piece = string_of(line.as_slice());
            blocks.push(Block::Paragraph(Paragraph::from_text(piece.as_str())));
            assert(block_views(blocks@) =~= bv.push(BlockView::Paragraph(text_paragraph(line@))));
        }
        assert(block_views(blocks@) =~= plain_text_blocks(text@));
        Document::new(Metadata::default(), blocks)
    }

    /// The paragraphs built from a parsed DocumentText stream.
    pub fn from_document_text(text: &ParsedDocumentText) -> (r: Self)
        ensures
            r@ == (DocumentView {
                title: None,
                blocks: built_blocks(text@),
                sheets: Seq::empty(),
                header_text: None,
            }),
    {
        let blocks = build_blocks(text.elements());
        Document::new(Metadata::default(), blocks)
    }

    /// The paragraphs built from the elements of a DocumentText payload.
    pub fn from_document_text_payload(payload: &DocumentTextPayload) -> (r: Self)
        ensures
            r@ == (DocumentView {
                title: None,
                blocks: built_blocks(payload@.elements),
                sheets: Seq::empty(),
                header_text: None,
            }),
    {
        let blocks = build_blocks(payload.parsed_text().elements());
        Document::new(Metadata::default(), blocks)
    }

    pub fn metadata(&self) -> (r: &Metadata)
        ensures
            r@ == self@.title,
    {
        &self.metadata
    }

    pub fn blocks(&self) -> (r: &[Block])
        ensures
            block_views(r@) == self@.blocks,
    {
        self.blocks.as_slice()
    }

    pub fn sheets(&self) -> (r: &[DocumentSheet])
        ensures
            sheet_views(r@) == self@.sheets,
    {
        self.sheets.as_slice()
    }

    pub fn push_sheet(&mut self, sheet: DocumentSheet)
        ensures
            final(self)@ == (DocumentView { sheets: old(self)@.sheets.push(sheet@), ..old(self)@ }),
    {
        let ghost before = sheet_views(self.sheets@);
        self.sheets.push(sheet);
        assert(sheet_views(self.sheets@) =~= before.push(sheet@));
    }

    /// The text of the sheet at `index`, if there is one.
    pub fn sheet_plain_text(&self, index: usize) -> (r: Option<&str>)
        ensures
            match r {
                Some(t) => index < self@.sheets.len() && t@ == self@.sheets[index as int].text,
                None => index >= self@.sheets.len(),
            },
    {
        if index < self.sheets.len() {
            Some(self.sheets[index].text())
        } else {
            None
        }
    }

    /// The first sheet named `name`.
    pub fn sheet_by_name(&self, name: &str) -> (r: Option<&DocumentSheet>)
        ensures
            match sheet_named(self@.sheets, name@, 0) {
                Some(i) => r matches Some(s) && s@ == self@.sheets[i],
                None => r is None,
            },
    {
        let ghost ss = self@.sheets;
        let mut i: usize = 0;
        while i < self.sheets.len()
            invariant
                ss == sheet_views(self.sheets@),
                i <= ss.len(),
                sheet_named(ss, name@, i as int) == sheet_named(ss, name@, 0),
            decreases ss.len() - i,
        {
            if same_text(self.sheets[i].name(), name) {
                return Some(&self.sheets[i]);
            }
            i = i + 1;
        }
        None
    }

    /// The document as plain text (see `spec_plain_text`).
    pub fn plain_text(&self) -> (r: String)
        ensures
            r@ == spec_plain_text(self@),
    {
        if self.sheets.len() <= 1 {
            let text = document_plain_text(self);
            let mut out = chars_of(text.as_str());
            if self.sheets.len() == 1 {
                match &self.sheets[0].footnote_text {
                    Some(f) => push_footnote(&mut out, f.as_str()),
                    None => {},
                }
            }
            proof {
                if self.sheets.len() == 1 {
                    assert(self@.sheets[0] == self.sheets@[0]@);
                }
            }
            string_of(out.as_slice())
        } else {
            let ghost ss = self@.sheets;
            let mut out: Vec<char> = Vec::new();
            let mut i: usize = 0;
            while i < self.sheets.len()
                invariant
                    ss == sheet_views(self.sheets@),
                    i <= ss.len(),
                    out@ == sheets_text(ss.take(i as int)),
                decreases ss.len() - i,
            {
                let ghost before = out@;
                let sheet = &self.sheets[i];
                if i > 0 {
                    out.push('\n');
                    out.push('\n');
                }
                let ghost sep = out@;
                push_str_chars(&mut out, sheet.name());
                out.push('\n');
                let body = trimmed(chars_of(sheet.text()).as_slice());
                extend_chars(&mut out, body.as_slice());
                match &sheet.footnote_text {
                    Some(f) => push_footnote(&mut out, f.as_str()),
                    None => {},
                }
                assert(out@ =~= sep + sheet_section(ss[i as int]));
                assert(ss.take(i + 1).drop_last() =~= ss.take(i as int));
                if i == 0 {
                    assert(sep =~= Seq::<char>::empty());
                    assert(out@ =~= sheets_text(ss.take(1)));
                } else {
                    assert(sep =~= before + seq!['\n', '\n']);
                }
                i = i + 1;
            }
            assert(ss.take(i as int) =~= ss);
            string_of(out.as_slice())
        }
    }
}

/// Appends a blank line and the trimmed footnote text.
fn push_footnote(out: &mut Vec<char>, footnote: &str)
    ensures
        final(out)@ == old(out)@ + footnote_suffix(Some(footnote@)),
{
    out.push('\n');
    out.push('\n');
    let t = trimmed(chars_of(footnote).as_slice());
    extend_chars(out, t.as_slice());
    assert(final(out)@ =~= old(out)@ + footnote_suffix(Some(footnote@)));
}

/// The text of a paragraph: its runs and ruby bases, in order.
fn paragraph_text(paragraph: &Paragraph) -> (r: Vec<char>)
    ensures
        r@ == inlines_text(paragraph@.inlines),
{
    let inlines = paragraph.inlines();
    let ghost v = inline_views(inlines@);
    let mut text: Vec<char> = Vec::new();
    let mut i: usize = 0;
    while i < inlines.len()
        invariant
            v == inline_views(inlines@),
            v == paragraph@.inlines,
            i <= v.len(),
            text@ == inlines_text(v.take(i as int)),
        decreases v.len() - i,
    {
        match &inlines[i] {
            Inline::Text(run) => push_str_chars(&mut text, run.text()),
            Inline::Ruby(ruby) => push_str_chars(&mut text, ruby.base_text()),
            Inline::Unknown(_) => {},
        }
        assert(v.take(i + 1).drop_last() =~= v.take(i as int));
        i = i + 1;
    }
    assert(v.take(i as int) =~= v);
    text
}

/// Each paragraph's text and a line break, trailing exposed controls dropped.
fn document_plain_text(document: &Document) -> (r: String)
    ensures
        r@ == spec_document_plain_text(document@.blocks),
{
    let blocks = document.blocks();
    let ghost bs = block_views(blocks@);
    let mut output: Vec<char> = Vec::new();
    let mut i: usize = 0;
    while i < blocks.len()
        invariant
            bs == block_views(blocks@),
            bs == document@.blocks,
            i <= bs.len(),
            output@ == blocks_text(bs.take(i as int)),
        decreases bs.len() - i,
    {
        match &blocks[i] {
            Block::Paragraph(paragraph) => {
                let t = paragraph_text(paragraph);
                extend_chars(&mut output, t.as_slice());
                output.push('\n');
            },
            Block::Unknown(_) => {},
        }
        assert(bs.take(i + 1).drop_last() =~= bs.take(i as int));
        i = i + 1;
    }
    assert(bs.take(i as int) =~= bs);
    let s = string_of(output.as_slice());
    trim_trailing_exposed_controls(s.as_str()).to_owned()
}

// ----------------------------------------------------------------------------------------
// Footnotes

/// Selector of the inline segment holding a footnote's anchor label.
pub const FOOTNOTE_ANCHOR_SELECTOR: u16 = 0x0001;

/// Footnote text read so far, and the anchor label waiting for its body.
pub struct FootnoteAcc {
    pub output: Seq<char>,
    pub label: Option<Seq<char>>,
}

/// An anchor label waits for the next non-blank run; that run, trimmed, follows the label
/// on a new line; a run with no label waiting follows the text after a space.
pub open spec fn footnote_step(acc: FootnoteAcc, e: ElementModel) -> FootnoteAcc {
    match e {
        ElementModel::InlineText(m) => if m.selector == FOOTNOTE_ANCHOR_SELECTOR {
            FootnoteAcc { label: Some(m.text), ..acc }
        } else {
            acc
        },
        ElementModel::TextRun(t) => if trim(t).len() == 0 {
            acc
        } else {
            match acc.label {
                Some(l) => FootnoteAcc {
                    output: (if acc.output.len() > 0 { acc.output.push('\n') } else { acc.output }) + l
                        + seq![' '] + trim(t),
                    label: None,
                },
                None => FootnoteAcc { output: acc.output + seq![' '] + trim(t), label: None },
            }
        },
        _ => acc,
    }
}

pub open spec fn footnote_after(els: Seq<ElementModel>) -> FootnoteAcc
    decreases els.len(),
{
    if els.len() == 0 {
        FootnoteAcc { output: Seq::empty(), label: None }
    } else {
        footnote_step(footnote_after(els.drop_last()), els.last())
    }
}

/// The footnote text of a Footnote stream: each anchor label with its body, trimmed; `None`
/// when nothing but white space is left.
pub open spec fn spec_footnote_text(stream: Seq<u8>) -> Option<Seq<char>> {
    let t = trim(footnote_after(spec_parse_document_text(stream)).output);
    if t.len() == 0 {
        None
    } else {
        Some(t)
    }
}

/// Reads the footnote text of a Footnote stream (see `spec_footnote_text`).
pub fn read_footnote_text(stream_bytes: &[u8]) -> (r: Option<String>)
    ensures
        opt_text(r) == spec_footnote_text(stream_bytes@),
{
    let parsed = parse_document_text(stream_bytes);
    let elements = parsed.elements();
    let ghost els = element_views(elements@);
    let mut output: Vec<char> = Vec::new();
    let mut label: Option<Vec<char>> = None;
    let mut i: usize = 0;
    while i < elements.len()
        invariant
            els == element_views(elements@),
            els == spec_parse_document_text(stream_bytes@),
            i <= els.len(),
            output@ == footnote_after(els.take(i as int)).output,
            match label {
                Some(l) => footnote_after(els.take(i as int)).label == Some(l@),
                None => footnote_after(els.take(i as int)).label is None,
            },
        decreases els.len() - i,
    {
        assert(els.take(i + 1).drop_last() =~= els.take(i as int));
        match &elements[i] {
            DocumentTextElement::InlineText(segment) => {
                if segment.selector() == FOOTNOTE_ANCHOR_SELECTOR {
                    label = Some(chars_of(segment.text()));
                }
            },
            DocumentTextElement::TextRun(text) => {
                let t = trimmed(chars_of(text.as_str()).as_slice());
                if t.len() > 0 {
                    match label {
                        Some(l) => {
                            if output.len() > 0 {
                                output.push('\n');
                            }
                            extend_chars(&mut output, l.as_slice());
                            output.push(' ');
                            extend_chars(&mut output, t.as_slice());
                            label = None;
                        },
                        None => {
                            output.push(' ');
                            extend_chars(&mut output, t.as_slice());
                        },
                    }
                }
            },
            _ => {},
        }
        i = i + 1;
    }
    assert(els.take(i as int) =~= els);
    let t = trimmed(output.as_slice());
    if t.len() == 0 {
        None
    } else {
        Some(string_of(t.as_slice()))
    }
}

// ----------------------------------------------------------------------------------------
// Laws

/// The body runs `bs` as parsed elements.
pub open spec fn body_runs(bs: Seq<Seq<char>>) -> Seq<ElementModel> {
    Seq::new(bs.len(), |i: int| ElementModel::TextRun(bs[i]))
}

/// The trimmed runs of `bs`, one space between each two.
pub open spec fn spaced_runs(bs: Seq<Seq<char>>) -> Seq<char>
    decreases bs.len(),
{
    if bs.len() == 0 {
        Seq::empty()
    } else if bs.len() == 1 {
        trim(bs[0])
    } else {
        spaced_runs(bs.drop_last()) + seq![' '] + trim(bs.last())
    }
}

/// The anchor element of a footnote labelled `l`.
pub open spec fn anchor(l: Seq<char>) -> ElementModel {
    ElementModel::InlineText(InlineModel { selector: FOOTNOTE_ANCHOR_SELECTOR, text: l })
}

proof fn lemma_footnote_body(pre: Seq<ElementModel>, l: Seq<char>, bs: Seq<Seq<char>>, n: int)
    requires
        1 <= n <= bs.len(),
        forall|i: int| 0 <= i < bs.len() ==> trim(#[trigger] bs[i]).len() > 0,
    ensures
        ({
            let o = footnote_after(pre).output;
            footnote_after(pre.push(anchor(l)) + body_runs(bs.take(n))) == FootnoteAcc {
                output: (if o.len() > 0 { o.push('\n') } else { o }) + l + seq![' '] + spaced_runs(
                    bs.take(n),
                ),
                label: None,
            }
        }),
    decreases n,
{
    let e = pre.push(anchor(l)) + body_runs(bs.take(n));
    let e0 = pre.push(anchor(l)) + body_runs(bs.take(n - 1));
    assert(e.drop_last() =~= e0);
    assert(e.last() == ElementModel::TextRun(bs[n - 1]));
    assert(bs.take(n).drop_last() =~= bs.take(n - 1));
    let o = footnote_after(pre).output;
    let head = (if o.len() > 0 { o.push('\n') } else { o }) + l + seq![' '];
    let t = trim(bs[n - 1]);
    assert(t.len() > 0);
    assert(footnote_after(e) == footnote_step(footnote_after(e0), ElementModel::TextRun(bs[n - 1])));
    if n == 1 {
        assert(e0 =~= pre.push(anchor(l)));
        assert(pre.push(anchor(l)).drop_last() =~= pre);
        assert(footnote_after(e0) == FootnoteAcc { output: o, label: Some(l) });
        assert(spaced_runs(bs.take(1)) == t);
        assert(head + t =~= (if o.len() > 0 { o.push('\n') } else { o }) + l + seq![' '] + t);
    } else {
        lemma_footnote_body(pre, l, bs, n - 1);
        let prev = spaced_runs(bs.take(n - 1));
        assert(spaced_runs(bs.take(n)) == prev + seq![' '] + t);
        assert((head + prev) + seq![' '] + t =~= head + (prev + seq![' '] + t));
    }
}

/// A footnote label is used for one body run only: after an anchor labelled `l` and body runs
/// `b1..bn` (none blank, no other label between), the footnote text gains, on a line of its
/// own, `l`, a space, and the trimmed runs separated by single spaces; no label is left
/// waiting.
pub proof fn lemma_footnote_label_used_once(pre: Seq<ElementModel>, l: Seq<char>, bs: Seq<Seq<char>>)
    requires
        bs.len() >= 1,
        forall|i: int| 0 <= i < bs.len() ==> trim(#[trigger] bs[i]).len() > 0,
    ensures
        ({
            let o = footnote_after(pre).output;
            let after = footnote_after(pre.push(anchor(l)) + body_runs(bs));
            &&& after.output == (if o.len() > 0 { o.push('\n') } else { o }) + l + seq![' ']
                + spaced_runs(bs)
            &&& after.label is None
        }),
{
    lemma_footnote_body(pre, l, bs, bs.len() as int);
    assert(bs.take(bs.len() as int) =~= bs);
}

/// The model keeps the visible text of a DocumentText stream: the paragraphs built from its
/// elements show, one each and in order, the non-empty lines of the stream's text (runs and
/// display inline segments).
pub proof fn lemma_document_text_paragraphs(text: Seq<ElementModel>)
    ensures
        paragraphs_show(built_blocks(text), text_lines(elements_text(text))),
        blocks_text(built_blocks(text)) == lines_text(text_lines(elements_text(text))),
{
    lemma_built_blocks_show_text_lines(text);
    lemma_blocks_text_of_lines(built_blocks(text), text_lines(elements_text(text)));
}

/// A plain text read as a document gives one paragraph per non-empty line, the same lines
/// the DocumentText builder gives for that text as one run; so both models render the same
/// plain text.
pub proof fn lemma_plain_text_models_agree(t: Seq<char>)
    ensures
        paragraphs_show(plain_text_blocks(t), text_lines(t)),
        paragraphs_show(built_blocks(text_elements(t)), text_lines(t)),
        blocks_text(plain_text_blocks(t)) == lines_text(text_lines(t)),
        blocks_text(plain_text_blocks(t)) == blocks_text(built_blocks(text_elements(t))),
{
    let b = plain_text_blocks(t);
    let lines = text_lines(t);
    assert forall|i: int| 0 <= i < b.len() implies block_line(#[trigger] b[i]) == lines[i] by {
        let p = text_paragraph(lines[i]);
        reveal_with_fuel(inlines_text, 2);
        assert(p.inlines.drop_last() =~= Seq::<InlineView>::empty());
    }
    assert(elements_text(text_elements(t)) =~= t) by {
        reveal_with_fuel(elements_text, 2);
        if t.len() > 0 {
            assert(text_elements(t).drop_last() =~= Seq::<ElementModel>::empty());
        }
    }
    lemma_document_text_paragraphs(text_elements(t));
    lemma_blocks_text_of_lines(b, lines);
}

/// No character of `s` is an exposed terminal control.
pub open spec fn no_exposed(s: Seq<char>) -> bool {
    forall|i: int| 0 <= i < s.len() ==> !is_exposed_terminal_control(#[trigger] s[i])
}

proof fn lemma_split_no_exposed(ls: LineSplit, s: Seq<char>)
    requires
        no_exposed(ls.open),
        forall|i: int| 0 <= i < ls.done.len() ==> no_exposed(#[trigger] ls.done[i]),
        no_exposed(s),
    ensures
        no_exposed(split_from(ls, s).open),
        forall|i: int|
            0 <= i < split_from(ls, s).done.len() ==> no_exposed(#[trigger] split_from(ls, s).done[i]),
    decreases s.len(),
{
    if s.len() > 0 {
        let q = s.drop_last();
        assert forall|i: int| 0 <= i < q.len() implies !is_exposed_terminal_control(#[trigger] q[i]) by {
            assert(q[i] == s[i]);
        }
        lemma_split_no_exposed(ls, q);
        let p = split_from(ls, q);
        let c = s.last();
        assert(!is_exposed_terminal_control(s[s.len() - 1]));
        let r = split_char(p, c);
        assert forall|k: int| 0 <= k < r.open.len() implies !is_exposed_terminal_control(
            #[trigger] r.open[k],
        ) by {
            if k < p.open.len() {
                assert(r.open[k] == p.open[k]);
            }
        }
        assert forall|i: int| 0 <= i < r.done.len() implies no_exposed(#[trigger] r.done[i]) by {
            if i < p.done.len() {
                assert(r.done[i] == p.done[i]);
            }
        }
    }
}

proof fn lemma_lines_text_no_exposed(lines: Seq<Seq<char>>)
    requires
        forall|i: int| 0 <= i < lines.len() ==> no_exposed(#[trigger] lines[i]),
    ensures
        no_exposed(lines_text(lines)),
    decreases lines.len(),
{
    if lines.len() > 0 {
        let front = lines.drop_last();
        assert forall|i: int| 0 <= i < front.len() implies no_exposed(#[trigger] front[i]) by {
            assert(front[i] == lines[i]);
        }
        lemma_lines_text_no_exposed(front);
        let a = lines_text(front);
        let l = lines.last();
        assert(no_exposed(lines[lines.len() - 1]));
        let x = a + l + seq!['\n'];
        assert forall|k: int| 0 <= k < x.len() implies !is_exposed_terminal_control(#[trigger] x[k]) by {
            if k < a.len() {
                assert(x[k] == a[k]);
            } else if k < a.len() + l.len() {
                assert(x[k] == l[k - a.len()]);
            }
        }
    }
}

/// Reading a document's plain text back as a document gives the same paragraphs, for a
/// text without exposed terminal controls (which the plain text trims from its end).
pub proof fn lemma_plain_text_round_trip(t: Seq<char>)
    requires
        no_exposed(t),
    ensures
        plain_text_blocks(spec_plain_text(DocumentView {
            title: None,
            blocks: plain_text_blocks(t),
            sheets: Seq::empty(),
            header_text: None,
        })) == plain_text_blocks(t),
{
    let lines = text_lines(t);
    lemma_plain_text_models_agree(t);
    lemma_split_no_exposed(no_split(), t);
    let ls = split_from(no_split(), t);
    assert forall|i: int| 0 <= i < lines.len() implies no_exposed(#[trigger] lines[i]) by {
        if i < ls.done.len() {
            assert(lines[i] == ls.done[i]);
        }
    }
    lemma_lines_text_no_exposed(lines);
    let x = lines_text(lines);
    crate::document_text::lemma_trailing_region(x);
    let b = x.len() - trailing_region(x);
    assert(!has_exposed_from(x, b)) by {
        if has_exposed_from(x, b) {
            let k = choose|k: int| b <= k < x.len() && is_exposed_terminal_control(#[trigger] x[k]);
            assert(0 <= k);
            assert(!is_exposed_terminal_control(x[k]));
        }
    }
    assert(trim_exposed(x) == x);
    lemma_text_lines_ok(t);
    lemma_text_lines_of_lines_text(lines);
    let d = DocumentView {
        title: None,
        blocks: plain_text_blocks(t),
        sheets: Seq::empty(),
        header_text: None,
    };
    assert(spec_plain_text(d) =~= x);
}

} // verus!
