//! The DocumentText stream: structured elements, a source map, plain text.
use vstd::prelude::*;

pub mod numbering;
pub mod payload;
pub mod row_headers;
pub mod scan;

pub use payload::{
    DocumentTextPayload, has_embedded_document_text, is_just_compressed_document,
    read_document_text_payload, read_document_text_payload_with_budget,
    read_document_text_payload_with_limits, read_document_text_stream,
};

pub use row_headers::{
    DocumentTextRowHeaderFixedFields, DocumentTextRowHeaderPair,
    DocumentTextRowHeaderPairClassification, DocumentTextRowHeaderRecord,
    parse_document_text_row_headers,
};

pub use scan::{
    DOCUMENT_TEXT_INLINE_SPACE_CONTROL, DOCUMENT_TEXT_PAGE_BREAK_CONTROL, RECORD_CLASS_INLINE_CONTEXT,
    RECORD_CLASS_PARAGRAPH_LINE, RECORD_CLASS_TABLE_CELL, RECORD_CLASS_TABLE_SECTION_TRANSITION,
    RECORD_START_MARKER, first_text_marker,
};

use crate::text::{chars_of, string_of};
use crate::units::{be_bytes, be_bytes_of, be_units, to_be_units};
use numbering::{
    NumberingModel, NumberingState, counters_within, initial_numbering, lemma_header_prefix_counters,
    paragraph_header_prefix, spec_header_prefix,
};
use scan::{
    inline_end, lemma_inline_end,
    lemma_prologue_boundary, prologue_boundary,
    INLINE_TEXT_START, TEXT_RUN_MARKER, continues_reading,
    decode_prologue_chars, find_inline_end, inline_text_selector,
    is_control_boundary, is_document_text_run_start, is_invalid_scalar, lemma_marker_from, marker_from, push_units_text, skipped_inline_selector,
    spec_decode_prologue_units, spec_inline_segment, spec_inline_text_selector,
    spec_is_control_boundary, spec_is_invalid_scalar, spec_run_start, spec_skipped_inline_selector,
    spec_skipped_segment, unit_char, unit_to_char, valid_text, filtered_text,
};

verus! {

/// Path of the main text stream.
pub const DOCUMENT_TEXT_PATH: &'static str = "/DocumentText";

/// Path of a just-compressed document.
pub const COMPRESSED_DOCUMENT_PATH: &'static str = "/JSCompDocument";

/// Source name reported for text recovered from embedded SsmgV.01 fragments.
pub const EMBEDDED_DOCUMENT_TEXT_PATH: &'static str = "/EmbeddedDocumentText";

/// Number of 16-bit units in the SsmgV.01 header plus the TextV.01 segment head.
pub const TEXT_CONTENT_HEADER_WORDS: usize = 16;

/// Text of a display inline segment and its selector.
pub struct InlineModel {
    pub selector: u16,
    pub text: Seq<char>,
}

/// A skipped (non-display) inline segment: the six units before it, its text, and its raw bytes.
pub struct SkippedModel {
    pub context: Seq<u16>,
    pub text: Seq<char>,
    pub raw_bytes: Seq<u8>,
}

/// One element of a parsed DocumentText stream.
pub enum ElementModel {
    TextRun(Seq<char>),
    InlineText(InlineModel),
    SkippedInlineText(SkippedModel),
    ControlBoundary(u16),
}

#[derive(Debug, Clone, PartialEq, Eq)]
pub struct InlineTextSegment {
    selector: u16,
    text: String,
}

impl View for InlineTextSegment {
    type V = InlineModel;

    closed spec fn view(&self) -> InlineModel {
        InlineModel { selector: self.selector, text: self.text@ }
    }
}

impl InlineTextSegment {
    pub(crate) fn new(selector: u16, text: String) -> (r: Self)
        ensures
            r@ == (InlineModel { selector, text: text@ }),
    {
        InlineTextSegment { selector, text }
    }

    pub fn selector(&self) -> (r: u16)
        ensures
            r == self@.selector,
    {
        self.selector
    }

    pub fn text(&self) -> (r: &str)
        ensures
            r@ == self@.text,
    {
        self.text.as_str()
    }
}

#[derive(Debug, Clone, PartialEq, Eq)]
pub struct SkippedInlineTextSegment {
    context: Vec<u16>,
    text: String,
    raw_bytes: Vec<u8>,
}

impl View for SkippedInlineTextSegment {
    type V = SkippedModel;

    closed spec fn view(&self) -> SkippedModel {
        SkippedModel { context: self.context@, text: self.text@, raw_bytes: self.raw_bytes@ }
    }
}

/// The last unit of a context, if any.
pub open spec fn last_of(s: Seq<u16>) -> Option<u16> {
    if s.len() > 0 {
        Some(s.last())
    } else {
        None
    }
}

impl SkippedInlineTextSegment {
    pub(crate) fn new(context: Vec<u16>, text: String, raw_bytes: Vec<u8>) -> (r: Self)
        ensures
            r@ == (SkippedModel { context: context@, text: text@, raw_bytes: raw_bytes@ }),
    {
        SkippedInlineTextSegment { context, text, raw_bytes }
    }

    /// The unit just before the opening marker.
    pub fn selector(&self) -> (r: Option<u16>)
        ensures
            r == last_of(self@.context),
    {
        let n = self.context.len();
        if n > 0 {
            Some(self.context[n - 1])
        } else {
            None
        }
    }

    pub fn context(&self) -> (r: &[u16])
        ensures
            r@ == self@.context,
    {
        self.context.as_slice()
    }

    pub fn text(&self) -> (r: &str)
        ensures
            r@ == self@.text,
    {
        self.text.as_str()
    }

    pub fn raw_bytes(&self) -> (r: &[u8])
        ensures
            r@ == self@.raw_bytes,
    {
        self.raw_bytes.as_slice()
    }
}

#[derive(Debug, Clone, Copy, PartialEq, Eq)]
pub struct DocumentTextControl {
    code: u16,
}

impl View for DocumentTextControl {
    type V = u16;

    closed spec fn view(&self) -> u16 {
        self.code
    }
}

impl DocumentTextControl {
    pub(crate) fn new(code: u16) -> (r: Self)
        ensures
            r@ == code,
    {
        DocumentTextControl { code }
    }

    pub fn code(&self) -> (r: u16)
        ensures
            r == self@,
    {
        self.code
    }
}

#[derive(Debug, Clone, PartialEq, Eq)]
pub enum DocumentTextElement {
    TextRun(String),
    InlineText(InlineTextSegment),
    SkippedInlineText(SkippedInlineTextSegment),
    ControlBoundary(DocumentTextControl),
}

impl View for DocumentTextElement {
    type V = ElementModel;

    open spec fn view(&self) -> ElementModel {
        match self {
            DocumentTextElement::TextRun(t) => ElementModel::TextRun(t@),
            DocumentTextElement::InlineText(s) => ElementModel::InlineText(s@),
            DocumentTextElement::SkippedInlineText(s) => ElementModel::SkippedInlineText(s@),
            DocumentTextElement::ControlBoundary(c) => ElementModel::ControlBoundary(c@),
        }
    }
}

/// Element models of a sequence of elements.
pub open spec fn element_views(v: Seq<DocumentTextElement>) -> Seq<ElementModel> {
    v.map_values(|e: DocumentTextElement| e@)
}

/// The text an element contributes to plain text: runs and display inline segments.
pub open spec fn element_text(e: ElementModel) -> Seq<char> {
    match e {
        ElementModel::TextRun(t) => t,
        ElementModel::InlineText(m) => m.text,
        _ => Seq::empty(),
    }
}

/// Concatenated text of the elements, in order.
pub open spec fn elements_text(els: Seq<ElementModel>) -> Seq<char>
    decreases els.len(),
{
    if els.len() == 0 {
        Seq::empty()
    } else {
        elements_text(els.drop_last()) + element_text(els.last())
    }
}

/// U+0400, U+0490 and U+FE14 leak from internal terminal records.
pub open spec fn is_exposed_terminal_control(c: char) -> bool {
    c as u32 == 0x0400 || c as u32 == 0x0490 || c as u32 == 0xfe14
}

/// Length of the maximal suffix made of white space and exposed terminal controls.
pub open spec fn trailing_region(s: Seq<char>) -> nat
    decreases s.len(),
{
    if s.len() > 0 && (crate::text::spec_is_whitespace(s.last()) || is_exposed_terminal_control(
        s.last(),
    )) {
        1 + trailing_region(s.drop_last())
    } else {
        0
    }
}

/// Some character of `s[from..]` is an exposed terminal control.
pub open spec fn has_exposed_from(s: Seq<char>, from: int) -> bool {
    exists|k: int| from <= k < s.len() && is_exposed_terminal_control(#[trigger] s[k])
}

/// `s` without its trailing region of white space and exposed terminal controls, when that
/// region holds at least one such control; `s` unchanged otherwise.
pub open spec fn trim_exposed(s: Seq<char>) -> Seq<char> {
    let b = s.len() - trailing_region(s);
    if has_exposed_from(s, b) {
        s.take(b)
    } else {
        s
    }
}

pub(crate) proof fn lemma_trailing_region(s: Seq<char>)
    ensures
        trailing_region(s) <= s.len(),
    decreases s.len(),
{
    if s.len() > 0 && (crate::text::spec_is_whitespace(s.last()) || is_exposed_terminal_control(
        s.last(),
    )) {
        lemma_trailing_region(s.drop_last());
    }
}

fn is_exposed_control(c: char) -> (r: bool)
    ensures
        r == is_exposed_terminal_control(c),
{
    let v = c as u32;
    v == 0x0400 || v == 0x0490 || v == 0xfe14
}

fn is_trailing_char(c: char) -> (r: bool)
    ensures
        r == (crate::text::spec_is_whitespace(c) || is_exposed_terminal_control(c)),
{
    crate::text::is_whitespace(c) || is_exposed_control(c)
}

proof fn lemma_trailing_region_cut(s: Seq<char>)
    ensures
        trailing_region(s.take(s.len() - trailing_region(s))) == 0,
    decreases s.len(),
{
    lemma_trailing_region(s);
    if s.len() > 0 && (crate::text::spec_is_whitespace(s.last()) || is_exposed_terminal_control(
        s.last(),
    )) {
        lemma_trailing_region_cut(s.drop_last());
        assert(s.take(s.len() - trailing_region(s)) =~= s.drop_last().take(
            s.drop_last().len() - trailing_region(s.drop_last()),
        ));
    } else {
        assert(s.take(s.len() as int) =~= s);
    }
}

pub open spec fn is_trailing_char_spec(c: char) -> bool {
    crate::text::spec_is_whitespace(c) || is_exposed_terminal_control(c)
}

proof fn lemma_trailing_region_chars(s: Seq<char>)
    ensures
        forall|k: int|
            s.len() - trailing_region(s) <= k < s.len() ==> is_trailing_char_spec(#[trigger] s[k]),
        trailing_region(s) < s.len() ==> !is_trailing_char_spec(s[s.len() - trailing_region(s) - 1]),
    decreases s.len(),
{
    lemma_trailing_region(s);
    if s.len() > 0 && is_trailing_char_spec(s.last()) {
        lemma_trailing_region_chars(s.drop_last());
        assert forall|k: int| s.len() - trailing_region(s) <= k < s.len() implies is_trailing_char_spec(
            #[trigger] s[k],
        ) by {
            if k < s.len() - 1 {
                assert(s[k] == s.drop_last()[k]);
            }
        }
        if trailing_region(s) < s.len() {
            assert(s[s.len() - trailing_region(s) - 1] == s.drop_last()[s.drop_last().len()
                - trailing_region(s.drop_last()) - 1]);
        }
    }
}

/// Trimming trailing exposed controls keeps a prefix of the text, and trimming again
/// changes nothing more. What it removes, when it removes anything, is white space and
/// exposed controls only, with at least one exposed control, and what is left ends (if it
/// is not empty) in a character that is neither; when the trailing run of white space and
/// exposed controls holds no exposed control, nothing is removed.
pub proof fn lemma_trim_exposed_idempotent(s: Seq<char>)
    ensures
        trim_exposed(s) == s.take(trim_exposed(s).len() as int),
        trim_exposed(trim_exposed(s)) == trim_exposed(s),
        trim_exposed(s) != s ==> {
            &&& forall|k: int|
                trim_exposed(s).len() <= k < s.len() ==> is_trailing_char_spec(#[trigger] s[k])
            &&& has_exposed_from(s, trim_exposed(s).len() as int)
            &&& trim_exposed(s).len() > 0 ==> !is_trailing_char_spec(trim_exposed(s).last())
        },
        !has_exposed_from(s, s.len() - trailing_region(s)) ==> trim_exposed(s) == s,
{
    lemma_trailing_region_chars(s);
    lemma_trailing_region(s);
    let b = s.len() - trailing_region(s);
    if has_exposed_from(s, b) {
        lemma_trailing_region_cut(s);
        let t = s.take(b);
        assert(t.len() - trailing_region(t) == t.len());
        assert(!has_exposed_from(t, t.len() as int));
    } else {
        assert(s.take(s.len() as int) =~= s);
    }
}

/// Removes a trailing run of exposed terminal controls (U+0400, U+0490, U+FE14) together with
/// the white space around it; a trailing run of white space alone is kept.
pub fn trim_trailing_exposed_controls(text: &str) -> (r: &str)
    ensures
        r@ == trim_exposed(text@),
{
    let chars = chars_of(text);
    proof {
        lemma_trailing_region(text@);
    }
    let mut b = chars.len();
    let mut seen = false;
    assert(chars@.take(b as int) =~= chars@);
    while b > 0 && is_trailing_char(chars[b - 1])
        invariant
            b <= chars@.len(),
            chars@ == text@,
            trailing_region(chars@.take(b as int)) + (chars@.len() - b) == trailing_region(chars@),
            seen == has_exposed_from(chars@, b as int),
        decreases b,
    {
        if is_exposed_control(chars[b - 1]) {
            seen = true;
        }
        assert(chars@.take(b as int).drop_last() =~= chars@.take(b - 1));
        b = b - 1;
        assert(seen == has_exposed_from(chars@, b as int)) by {
            if has_exposed_from(chars@, b as int) && !is_exposed_terminal_control(chars@[b as int]) {
                let k = choose|k: int|
                    b <= k < chars@.len() && is_exposed_terminal_control(#[trigger] chars@[k]);
                assert(k != b);
            }
        }
    }
    assert(trailing_region(chars@.take(b as int)) == 0);
    if seen {
        text.substring_char(0, b)
    } else {
        text
    }
}

/// A source range: units `[unit_start, unit_end)`, bytes `[2 * unit_start, 2 * unit_end)`.
pub struct SpanModel {
    pub unit_start: int,
    pub unit_end: int,
}

#[derive(Debug, Clone, Copy, PartialEq, Eq)]
pub struct DocumentTextSourceSpan {
    byte_start: usize,
    byte_end: usize,
    unit_start: usize,
    unit_end: usize,
}

impl View for DocumentTextSourceSpan {
    type V = SpanModel;

    closed spec fn view(&self) -> SpanModel {
        SpanModel { unit_start: self.unit_start as int, unit_end: self.unit_end as int }
    }
}

impl DocumentTextSourceSpan {
    #[verifier::type_invariant]
    spec fn wf(&self) -> bool {
        self.byte_start == 2 * self.unit_start && self.byte_end == 2 * self.unit_end
    }

    pub(crate) fn new(unit_start: usize, unit_end: usize) -> (r: Self)
        requires
            unit_start <= unit_end <= usize::MAX / 2,
        ensures
            r@ == (SpanModel { unit_start: unit_start as int, unit_end: unit_end as int }),
    {
        DocumentTextSourceSpan {
            byte_start: unit_start * 2,
            byte_end: unit_end * 2,
            unit_start,
            unit_end,
        }
    }

    pub fn byte_start(&self) -> (r: usize)
        ensures
            r == 2 * self@.unit_start,
    {
        proof {
            use_type_invariant(self);
        }
        self.byte_start
    }

    pub fn byte_end(&self) -> (r: usize)
        ensures
            r == 2 * self@.unit_end,
    {
        proof {
            use_type_invariant(self);
        }
        self.byte_end
    }

    pub fn unit_start(&self) -> (r: usize)
        ensures
            r == self@.unit_start,
    {
        self.unit_start
    }

    pub fn unit_end(&self) -> (r: usize)
        ensures
            r == self@.unit_end,
    {
        self.unit_end
    }
}

/// A parsed DocumentText stream.
#[derive(Debug, Clone, PartialEq, Eq)]
pub struct ParsedDocumentText {
    elements: Vec<DocumentTextElement>,
}

impl View for ParsedDocumentText {
    type V = Seq<ElementModel>;

    closed spec fn view(&self) -> Seq<ElementModel> {
        element_views(self.elements@)
    }
}

impl Default for ParsedDocumentText {
    fn default() -> (r: Self)
        ensures
            r@ == Seq::<ElementModel>::empty(),
    {
        let r = ParsedDocumentText { elements: Vec::new() };
        assert(r@ =~= Seq::<ElementModel>::empty());
        r
    }
}

/// The elements that `ParsedDocumentText::from_text` holds for a text.
pub open spec fn text_elements(t: Seq<char>) -> Seq<ElementModel> {
    if t.len() == 0 {
        Seq::empty()
    } else {
        seq![ElementModel::TextRun(t)]
    }
}

impl ParsedDocumentText {
    fn new(elements: Vec<DocumentTextElement>) -> (r: Self)
        ensures
            r@ == element_views(elements@),
    {
        ParsedDocumentText { elements }
    }

    /// A parsed text made of one run (none when the text is empty).
    pub fn from_text(text: String) -> (r: Self)
        ensures
            r@ == text_elements(text@),
    {
        if text.as_str().is_empty() {
            Self::default()
        } else {
            let ghost t = text@;
            let mut elements = Vec::new();
            elements.push(DocumentTextElement::TextRun(text));
            assert(element_views(elements@) =~= text_elements(t));
            ParsedDocumentText { elements }
        }
    }

    pub fn elements(&self) -> (r: &[DocumentTextElement])
        ensures
            element_views(r@) == self@,
    {
        self.elements.as_slice()
    }

    /// Runs and display inline segments concatenated, then trimmed of trailing exposed
    /// terminal controls.
    pub fn plain_text(&self) -> (r: String)
        ensures
            r@ == trim_exposed(elements_text(self@)),
    {
        let mut output = String::new();
        let mut i: usize = 0;
        while i < self.elements.len()
            invariant
                i <= self.elements@.len(),
                output@ == elements_text(element_views(self.elements@).take(i as int)),
            decreases self.elements@.len() - i,
        {
            let ghost prev = element_views(self.elements@).take(i as int);
            match &self.elements[i] {
                DocumentTextElement::TextRun(t) => output.append(t.as_str()),
                DocumentTextElement::InlineText(s) => output.append(s.text()),
                DocumentTextElement::SkippedInlineText(_) => {},
                DocumentTextElement::ControlBoundary(_) => {},
            }
            i = i + 1;
            assert(element_views(self.elements@).take(i as int).drop_last() =~= prev);
        }
        assert(element_views(self.elements@).take(i as int) =~= element_views(self.elements@));
        let trimmed = trim_trailing_exposed_controls(output.as_str());
        trimmed.to_owned()
    }
}


/// The eight bytes "SsmgV.01".
pub open spec fn ssmg_magic() -> Seq<u8> {
    seq![0x53u8, 0x73, 0x6d, 0x67, 0x56, 0x2e, 0x30, 0x31]
}

/// The eight bytes "TextV.01".
pub open spec fn textv_name() -> Seq<u8> {
    seq![0x54u8, 0x65, 0x78, 0x74, 0x56, 0x2e, 0x30, 0x31]
}

/// `data[off..off + pat.len()] == pat`.
pub open spec fn bytes_at(data: Seq<u8>, off: int, pat: Seq<u8>) -> bool {
    0 <= off && off + pat.len() <= data.len() && data.subrange(off, off + pat.len()) == pat
}

pub(crate) fn bytes_match(data: &[u8], off: usize, pat: &[u8]) -> (r: bool)
    ensures
        r == bytes_at(data@, off as int, pat@),
{
    if off > data.len() || pat.len() > data.len() - off {
        return false;
    }
    let dl = data.len();
    let mut k: usize = 0;
    while k < pat.len()
        invariant
            dl == data@.len(),
            off + pat@.len() <= data@.len(),
            k <= pat@.len(),
            forall|j: int| 0 <= j < k ==> data@[off + j] == pat@[j],
        decreases pat@.len() - k,
    {
        if data[off + k] != pat[k] {
            assert(data@.subrange(off as int, off + pat@.len())[k as int] != pat@[k as int]);
            return false;
        }
        k = k + 1;
    }
    assert(data@.subrange(off as int, off + pat@.len()) =~= pat@);
    true
}

pub(crate) fn ssmg_magic_bytes() -> (r: Vec<u8>)
    ensures
        r@ == ssmg_magic(),
{
    let mut r = Vec::new();
    r.push(0x53u8);
    r.push(0x73u8);
    r.push(0x6du8);
    r.push(0x67u8);
    r.push(0x56u8);
    r.push(0x2eu8);
    r.push(0x30u8);
    r.push(0x31u8);
    assert(r@ =~= ssmg_magic());
    r
}

fn textv_name_bytes() -> (r: Vec<u8>)
    ensures
        r@ == textv_name(),
{
    let mut r = Vec::new();
    r.push(0x54u8);
    r.push(0x65u8);
    r.push(0x78u8);
    r.push(0x74u8);
    r.push(0x56u8);
    r.push(0x2eu8);
    r.push(0x30u8);
    r.push(0x31u8);
    assert(r@ =~= textv_name());
    r
}

/// The stream starts with the SsmgV.01 magic.
pub open spec fn starts_with_magic(data: Seq<u8>) -> bool {
    bytes_at(data, 0, ssmg_magic())
}

/// The stream has the SsmgV.01 header followed by a TextV.01 segment name at byte 20.
pub open spec fn has_text_segment(data: Seq<u8>) -> bool {
    starts_with_magic(data) && bytes_at(data, 20, textv_name())
}

/// Segment header with a content unit count: SsmgV.01, TextV.01, and at least 32 bytes.
pub open spec fn has_content_header(data: Seq<u8>) -> bool {
    has_text_segment(data) && data.len() >= 32
}

/// Big-endian u32 at bytes 28..32: the number of content units after the 16-unit header.
pub open spec fn content_unit_count(data: Seq<u8>) -> int {
    ((data[28] as int * 256 + data[29] as int) * 256 + data[30] as int) * 256 + data[31] as int
}

/// Units read by the marker scan: the declared content (16 + count) bounded by the stream, or
/// the whole stream when there is no content header.
pub open spec fn unit_limit(data: Seq<u8>) -> int {
    let n = be_units(data).len() as int;
    if has_content_header(data) {
        if 16 + content_unit_count(data) < n {
            16 + content_unit_count(data)
        } else {
            n
        }
    } else {
        n
    }
}

/// `u[16..16 + u[15]]` is a declared text span holding no text marker.
pub open spec fn is_markerless_raw_span(u: Seq<u16>) -> bool {
    &&& u.len() >= 16
    &&& u[14] == 0
    &&& 0 < u[15]
    &&& u[15] <= u.len() - 16
    &&& marker_from(u, 16, 16 + u[15]) == 16 + u[15]
}

/// A single raw TextV.01 segment: w[9] == 1, or a marker-less declared span.
pub open spec fn is_raw_text_segment(data: Seq<u8>) -> bool {
    let u = be_units(data);
    has_text_segment(data) && ((u.len() > 9 && u[9] == 1) || is_markerless_raw_span(u))
}

/// First index in `[k, end)` holding `x`, or `end`.
pub open spec fn first_of(u: Seq<u16>, k: int, end: int, x: u16) -> int
    decreases end - k,
{
    if k >= end {
        end
    } else if u[k] == x {
        k
    } else {
        first_of(u, k + 1, end, x)
    }
}

/// Elements of a raw TextV.01 segment: the declared text up to the first 0x0000, invalid
/// scalars dropped, as one run.
pub open spec fn raw_segment_elements(u: Seq<u16>) -> Seq<ElementModel> {
    if u.len() < 16 {
        Seq::empty()
    } else {
        let end = if 16 + u[15] < u.len() {
            16 + u[15]
        } else {
            u.len() as int
        };
        let t = valid_text(u.subrange(16, first_of(u, 16, end, 0)));
        text_elements(t)
    }
}

/// State of the marker scan.
pub struct ScanState {
    pub index: int,
    pub elements: Seq<ElementModel>,
    pub run: Seq<char>,
    pub reading_text: bool,
    pub has_prose: bool,
    pub numbering: NumberingModel,
}

/// Elements with the pending run appended when it is not empty.
pub open spec fn flush_run(els: Seq<ElementModel>, run: Seq<char>) -> Seq<ElementModel> {
    if run.len() > 0 {
        els.push(ElementModel::TextRun(run))
    } else {
        els
    }
}

/// One step of the scan at an inline opener 0x001d.
pub open spec fn inline_step(u: Seq<u16>, s: ScanState) -> ScanState {
    let i = s.index;
    let els = flush_run(s.elements, s.run);
    match spec_inline_text_selector(u, i) {
        Some(sel) => {
            let (t, next) = spec_inline_segment(u, i);
            ScanState {
                index: next,
                elements: if t.len() > 0 {
                    els.push(ElementModel::InlineText(InlineModel { selector: sel, text: t }))
                } else {
                    els
                },
                run: Seq::empty(),
                reading_text: false,
                has_prose: true,
                ..s
            }
        },
        None => {
            if spec_skipped_inline_selector(u, i) is Some && spec_skipped_segment(u, i) is Some {
                let (ctx, t, raw, next) = spec_skipped_segment(u, i).unwrap();
                ScanState {
                    index: next,
                    elements: els.push(
                        ElementModel::SkippedInlineText(
                            SkippedModel { context: ctx, text: t, raw_bytes: be_bytes(raw) },
                        ),
                    ),
                    run: Seq::empty(),
                    reading_text: false,
                    ..s
                }
            } else {
                ScanState {
                    index: i + 1,
                    elements: els.push(ElementModel::ControlBoundary(INLINE_TEXT_START)),
                    run: Seq::empty(),
                    reading_text: false,
                    ..s
                }
            }
        },
    }
}

/// One step of the scan at `s.index`.
pub open spec fn parse_step(u: Seq<u16>, s: ScanState) -> ScanState {
    let i = s.index;
    let code = u[i];
    if code == TEXT_RUN_MARKER {
        if !spec_run_start(u, i, s.has_prose) {
            ScanState { index: i + 1, ..s }
        } else {
            let (p, num) = spec_header_prefix(u, i, s.numbering);
            ScanState {
                index: i + 1,
                elements: flush_run(s.elements, s.run),
                run: if p is Some {
                    p.unwrap()
                } else {
                    Seq::empty()
                },
                reading_text: true,
                has_prose: true,
                numbering: num,
            }
        }
    } else if code == INLINE_TEXT_START {
        inline_step(u, s)
    } else if s.reading_text {
        if spec_is_control_boundary(code) || spec_is_invalid_scalar(code) {
            ScanState {
                index: i + 1,
                elements: flush_run(s.elements, s.run).push(ElementModel::ControlBoundary(code)),
                run: Seq::empty(),
                reading_text: continues_reading(code),
                ..s
            }
        } else {
            ScanState { index: i + 1, run: s.run.push(unit_char(code)), has_prose: true, ..s }
        }
    } else {
        ScanState { index: i + 1, ..s }
    }
}

/// The scan from state `s` up to unit `limit`.
pub open spec fn parse_from(u: Seq<u16>, limit: int, s: ScanState) -> ScanState
    decreases u.len() - s.index,
{
    if 0 <= s.index < limit && limit <= u.len() {
        let t = parse_step(u, s);
        if s.index < t.index <= u.len() {
            parse_from(u, limit, t)
        } else {
            s
        }
    } else {
        s
    }
}

/// Scan state at unit 0, nothing read.
pub open spec fn initial_scan() -> ScanState {
    ScanState {
        index: 0,
        elements: Seq::empty(),
        run: Seq::empty(),
        reading_text: false,
        has_prose: false,
        numbering: initial_numbering(),
    }
}

/// Where the marker scan starts: when raw prologue text precedes the first marker of the
/// declared content, it is emitted first and the scan starts at that marker; otherwise at 0.
pub open spec fn scan_start(data: Seq<u8>) -> ScanState {
    let u = be_units(data);
    if has_content_header(data) {
        let m = marker_from(u, 16, unit_limit(data));
        match spec_decode_prologue_units(u, 16, m) {
            Some((t, _)) => ScanState {
                index: m,
                elements: seq![ElementModel::TextRun(t)],
                run: Seq::empty(),
                reading_text: false,
                has_prose: true,
                numbering: initial_numbering(),
            },
            None => initial_scan(),
        }
    } else {
        initial_scan()
    }
}

/// The elements of a DocumentText stream.
pub open spec fn spec_parse_document_text(data: Seq<u8>) -> Seq<ElementModel> {
    let u = be_units(data);
    if is_raw_text_segment(data) {
        raw_segment_elements(u)
    } else {
        let fin = parse_from(u, unit_limit(data), scan_start(data));
        flush_run(fin.elements, fin.run)
    }
}

/// A character that display text can hold: no C0 control other than tab, line feed and
/// carriage return, no C1 control, not U+FFFF.
pub open spec fn display_char(c: char) -> bool {
    let v = c as u32;
    &&& !(v < 0x20 && v != 0x09 && v != 0x0a && v != 0x0d)
    &&& !(0x7f <= v && v <= 0x9f)
    &&& v != 0xffff
}

/// Shape of one parsed element: a display inline segment has selector 0x0001, 0x0003 or
/// 0x0013 and non-empty text of display characters; a skipped segment keeps one to six
/// context units, and its raw bytes are whole big-endian units that open with the context
/// and 0x001d, close with 0x001e, and number at most 263; a control boundary carries a
/// control, a surrogate or U+FFFF.
pub open spec fn element_ok(e: ElementModel) -> bool {
    match e {
        ElementModel::TextRun(_) => true,
        ElementModel::InlineText(m) => {
            &&& (m.selector == 0x0001 || m.selector == 0x0003 || m.selector == 0x0013)
            &&& m.text.len() > 0
            &&& forall|k: int| 0 <= k < m.text.len() ==> display_char(#[trigger] m.text[k])
        },
        ElementModel::SkippedInlineText(m) => {
            let r = be_units(m.raw_bytes);
            &&& 1 <= m.context.len() <= 6
            &&& m.raw_bytes.len() == 2 * r.len()
            &&& m.context.len() + 2 <= r.len() <= 263
            &&& r.take(m.context.len() as int) == m.context
            &&& r[m.context.len() as int] == INLINE_TEXT_START
            &&& r.last() == scan::INLINE_TEXT_END
        },
        ElementModel::ControlBoundary(k) => spec_is_control_boundary(k) || spec_is_invalid_scalar(k),
    }
}

proof fn lemma_filtered_display(s: Seq<u16>)
    ensures
        forall|k: int| 0 <= k < filtered_text(s).len() ==> display_char(#[trigger] filtered_text(s)[k]),
    decreases s.len(),
{
    if s.len() > 0 {
        lemma_filtered_display(s.drop_last());
        let rest = filtered_text(s.drop_last());
        let c = s.last();
        if !spec_is_control_boundary(c) && !spec_is_invalid_scalar(c) {
            let ch = unit_char(c);
            assert((c as char) as u32 == c);
            assert(display_char(ch));
            let t = filtered_text(s);
            assert forall|k: int| 0 <= k < t.len() implies display_char(#[trigger] t[k]) by {
                if k < rest.len() {
                    assert(t[k] == rest[k]);
                }
            }
        }
    }
}

pub open spec fn elements_ok(els: Seq<ElementModel>) -> bool {
    forall|j: int| 0 <= j < els.len() ==> element_ok(#[trigger] els[j])
}

proof fn lemma_elements_ok_push(els: Seq<ElementModel>, e: ElementModel)
    requires
        elements_ok(els),
        element_ok(e),
    ensures
        elements_ok(els.push(e)),
{
    assert forall|j: int| 0 <= j < els.push(e).len() implies element_ok(#[trigger] els.push(e)[j]) by {
        if j < els.len() {
            assert(els.push(e)[j] == els[j]);
        }
    }
}

proof fn lemma_flush_ok(els: Seq<ElementModel>, run: Seq<char>)
    requires
        elements_ok(els),
    ensures
        elements_ok(flush_run(els, run)),
{
    if run.len() > 0 {
        lemma_elements_ok_push(els, ElementModel::TextRun(run));
    }
}

#[verifier::rlimit(40)]
proof fn lemma_skipped_ok(u: Seq<u16>, i: int)
    requires
        0 <= i < u.len(),
        spec_skipped_inline_selector(u, i) is Some,
        spec_skipped_segment(u, i) is Some,
    ensures
        ({
            let (ctx, tx, raw, next) = spec_skipped_segment(u, i).unwrap();
            element_ok(
                ElementModel::SkippedInlineText(
                    SkippedModel { context: ctx, text: tx, raw_bytes: be_bytes(raw) },
                ),
            )
        }),
{
    let (ctx, tx, raw, next) = spec_skipped_segment(u, i).unwrap();
    let e = inline_end(u, i + 1);
    lemma_inline_end(u, i + 1);
    let cs = if i >= 6 { i - 6 } else { 0 };
    assert(ctx == u.subrange(cs, i));
    assert(raw == u.subrange(cs, e + 1));
    assert(1 <= ctx.len() <= 6);
    assert(ctx.len() + 2 <= raw.len() <= 263);
    assert(raw.take(ctx.len() as int) =~= ctx);
    assert(raw[ctx.len() as int] == u[i]);
    assert(raw.last() == u[e]);
    let b = be_bytes(raw);
    crate::units::lemma_be_units_of_be_bytes(raw);
    assert(b.len() == 2 * raw.len());
    assert(be_units(b) == raw);
}

proof fn lemma_inline_step_ok(u: Seq<u16>, s: ScanState)
    requires
        elements_ok(s.elements),
        0 <= s.index < u.len(),
        u[s.index] == INLINE_TEXT_START,
    ensures
        elements_ok(inline_step(u, s).elements),
{
    let i = s.index;
    let t = inline_step(u, s);
    lemma_flush_ok(s.elements, s.run);
    let els = flush_run(s.elements, s.run);
    match spec_inline_text_selector(u, i) {
        Some(sel) => {
            let (tx, next) = spec_inline_segment(u, i);
            lemma_inline_end(u, i + 1);
            lemma_filtered_display(u.subrange(i + 1, inline_end(u, i + 1)));
            if tx.len() > 0 {
                lemma_elements_ok_push(els, t.elements.last());
                assert(t.elements == els.push(t.elements.last()));
            }
        },
        None => {
            if spec_skipped_inline_selector(u, i) is Some && spec_skipped_segment(u, i) is Some {
                lemma_skipped_ok(u, i);
                let last = t.elements.last();
                lemma_elements_ok_push(els, last);
                assert(t.elements == els.push(last));
            } else {
                lemma_elements_ok_push(els, ElementModel::ControlBoundary(INLINE_TEXT_START));
            }
        },
    }
}

proof fn lemma_parse_step_ok(u: Seq<u16>, s: ScanState)
    requires
        elements_ok(s.elements),
        0 <= s.index < u.len(),
    ensures
        elements_ok(parse_step(u, s).elements),
{
    let i = s.index;
    let code = u[i];
    let t = parse_step(u, s);
    lemma_flush_ok(s.elements, s.run);
    let els = flush_run(s.elements, s.run);
    if code == TEXT_RUN_MARKER {
    } else if code == INLINE_TEXT_START {
        lemma_inline_step_ok(u, s);
    } else if s.reading_text {
        if spec_is_control_boundary(code) || spec_is_invalid_scalar(code) {
            lemma_elements_ok_push(els, ElementModel::ControlBoundary(code));
        }
    }
}

proof fn lemma_parse_from_ok(u: Seq<u16>, limit: int, s: ScanState)
    requires
        elements_ok(s.elements),
    ensures
        elements_ok(parse_from(u, limit, s).elements),
        elements_ok(flush_run(parse_from(u, limit, s).elements, parse_from(u, limit, s).run)),
    decreases u.len() - s.index,
{
    if 0 <= s.index < limit && limit <= u.len() {
        let t = parse_step(u, s);
        if s.index < t.index <= u.len() {
            lemma_parse_step_ok(u, s);
            lemma_parse_from_ok(u, limit, t);
        } else {
            lemma_flush_ok(s.elements, s.run);
        }
    } else {
        lemma_flush_ok(s.elements, s.run);
    }
}

/// Every parsed element has the shape `element_ok` gives (selectors and text of display
/// inline segments, the layout of skipped segments, the codes of control boundaries).
pub proof fn lemma_parsed_elements_well_formed(data: Seq<u8>)
    ensures
        elements_ok(spec_parse_document_text(data)),
{
    let u = be_units(data);
    if is_raw_text_segment(data) {
        let r = raw_segment_elements(u);
        assert(elements_ok(r));
    } else {
        let s0 = scan_start(data);
        assert(elements_ok(s0.elements));
        lemma_parse_from_ok(u, unit_limit(data), s0);
    }
}

/// The raw bytes of a skipped segment, byte by byte: one to six context units; an even
/// number of bytes, at most 2 * 263; opening with the big-endian bytes of the context and
/// then 0x00 0x1d; closing with 0x00 0x1e.
pub open spec fn skipped_bytes_ok(m: SkippedModel) -> bool {
    let b = m.raw_bytes;
    let n = m.context.len();
    &&& 1 <= n <= 6
    &&& b.len() % 2 == 0
    &&& 2 * n + 4 <= b.len() <= 2 * 263
    &&& b.take(2 * n as int + 2) == be_bytes(m.context) + seq![0x00u8, 0x1du8]
    &&& b.subrange(b.len() - 2, b.len() as int) == seq![0x00u8, 0x1eu8]
}

proof fn lemma_skipped_bytes_ok(m: SkippedModel)
    requires
        element_ok(ElementModel::SkippedInlineText(m)),
    ensures
        skipped_bytes_ok(m),
{
    crate::units::lemma_framed_bytes(
        m.raw_bytes,
        m.context,
        INLINE_TEXT_START,
        scan::INLINE_TEXT_END,
    );
}

/// Every skipped inline segment of a parse keeps the byte layout `skipped_bytes_ok` gives.
pub proof fn lemma_parsed_skipped_bytes(data: Seq<u8>)
    ensures
        forall|j: int|
            0 <= j < spec_parse_document_text(data).len()
                ==> (#[trigger] spec_parse_document_text(data)[j] matches ElementModel::SkippedInlineText(
                m,
            ) ==> skipped_bytes_ok(m)),
{
    lemma_parsed_elements_well_formed(data);
    let els = spec_parse_document_text(data);
    assert forall|j: int| 0 <= j < els.len() implies (#[trigger] els[j] matches ElementModel::SkippedInlineText(
        m,
    ) ==> skipped_bytes_ok(m)) by {
        assert(element_ok(els[j]));
        if let ElementModel::SkippedInlineText(m) = els[j] {
            lemma_skipped_bytes_ok(m);
        }
    }
}

/// The plain text of a DocumentText stream.
pub open spec fn spec_extract_document_text(data: Seq<u8>) -> Seq<char> {
    trim_exposed(elements_text(spec_parse_document_text(data)))
}

/// Whether `data` starts with "SsmgV.01".
pub fn starts_with_magic_exec(data: &[u8]) -> (r: bool)
    ensures
        r == starts_with_magic(data@),
{
    let magic = ssmg_magic_bytes();
    bytes_match(data, 0, magic.as_slice())
}

fn has_text_segment_exec(data: &[u8]) -> (r: bool)
    ensures
        r == has_text_segment(data@),
{
    let magic = ssmg_magic_bytes();
    let name = textv_name_bytes();
    bytes_match(data, 0, magic.as_slice()) && bytes_match(data, 20, name.as_slice())
}

fn document_text_unit_limit(data: &[u8], n: usize) -> (r: usize)
    requires
        n == be_units(data@).len(),
    ensures
        r == unit_limit(data@),
        r <= n,
{
    if has_text_segment_exec(data) && data.len() >= 32 {
        let count: usize = ((data[28] as usize * 256 + data[29] as usize) * 256 + data[30] as usize)
            * 256 + data[31] as usize;
        if count < n && 16 + count < n {
            16 + count
        } else {
            n
        }
    } else {
        n
    }
}

proof fn lemma_first_of(u: Seq<u16>, k: int, end: int, x: u16)
    requires
        k <= end,
    ensures
        k <= first_of(u, k, end, x) <= end,
    decreases end - k,
{
    if k < end && u[k] != x {
        lemma_first_of(u, k + 1, end, x);
    }
}

fn is_raw_text_segment_exec(data: &[u8], units: &Vec<u16>) -> (r: bool)
    requires
        units@ == be_units(data@),
    ensures
        r == is_raw_text_segment(data@),
{
    if !has_text_segment_exec(data) {
        return false;
    }
    if units.len() > 9 && units[9] == 1 {
        return true;
    }
    if units.len() < 16 || units[14] != 0 {
        return false;
    }
    let len = units[15] as usize;
    if len == 0 || len > units.len() - 16 {
        return false;
    }
    proof {
        lemma_marker_from(units@, 16, 16 + len);
    }
    match first_text_marker(units.as_slice(), 16, 16 + len) {
        Some(_) => false,
        None => true,
    }
}

fn parse_raw_text_segment(units: &Vec<u16>) -> (r: ParsedDocumentText)
    ensures
        r@ == raw_segment_elements(units@),
{
    if units.len() < 16 {
        return ParsedDocumentText::default();
    }
    let len = units[15] as usize;
    let end = if len < units.len() - 16 {
        16 + len
    } else {
        units.len()
    };
    proof {
        lemma_first_of(units@, 16, end as int, 0);
    }
    let mut z: usize = 16;
    while z < end && units[z] != 0
        invariant
            16 <= z <= end <= units@.len(),
            first_of(units@, z as int, end as int, 0) == first_of(units@, 16, end as int, 0),
        decreases end - z,
    {
        z = z + 1;
    }
    let mut run: Vec<char> = Vec::new();
    push_units_text(&mut run, units.as_slice(), 16, z, true);
    assert(run@ =~= valid_text(units@.subrange(16, z as int)));
    ParsedDocumentText::from_text(string_of(run.as_slice()))
}

/// Exec state of the marker scan, viewed as a `ScanState`.
pub open spec fn scan_view(
    index: usize,
    elements: Seq<DocumentTextElement>,
    run: Seq<char>,
    reading_text: bool,
    has_prose: bool,
    numbering: NumberingModel,
) -> ScanState {
    ScanState {
        index: index as int,
        elements: element_views(elements),
        run,
        reading_text,
        has_prose,
        numbering,
    }
}

fn push_element(elements: &mut Vec<DocumentTextElement>, e: DocumentTextElement)
    ensures
        element_views(final(elements)@) == element_views(old(elements)@).push(e@),
{
    let ghost ev = e@;
    elements.push(e);
    assert(element_views(elements@) =~= element_views(old(elements)@).push(ev));
}

fn push_run(elements: &mut Vec<DocumentTextElement>, run: &mut Vec<char>)
    ensures
        element_views(final(elements)@) == flush_run(element_views(old(elements)@), old(run)@),
        final(run)@ == Seq::<char>::empty(),
{
    if run.len() > 0 {
        let text = string_of(run.as_slice());
        push_element(elements, DocumentTextElement::TextRun(text));
    }
    *run = Vec::new();
}

/// Reads the inline segment opened at `start`: its text and the index just past it.
fn read_inline_text(units: &[u16], start: usize) -> (r: (Vec<char>, usize))
    requires
        start < units@.len(),
    ensures
        r.0@ == spec_inline_segment(units@, start as int).0,
        r.1 == spec_inline_segment(units@, start as int).1,
        start < r.1 <= units@.len(),
{
    let e = find_inline_end(units, start);
    let mut text: Vec<char> = Vec::new();
    push_units_text(&mut text, units, start + 1, e, false);
    assert(text@ =~= filtered_text(units@.subrange(start + 1, e as int)));
    let next = if e < units.len() {
        e + 1
    } else {
        e
    };
    (text, next)
}

/// Reads a skipped inline segment opened at `start` (see `spec_skipped_segment`).
fn read_skipped_inline_segment(units: &[u16], start: usize) -> (r: Option<
    (SkippedInlineTextSegment, usize),
>)
    requires
        start < units@.len(),
    ensures
        match spec_skipped_segment(units@, start as int) {
            None => r is None,
            Some((ctx, t, raw, next)) => r matches Some((seg, n)) && seg@ == (SkippedModel {
                context: ctx,
                text: t,
                raw_bytes: be_bytes(raw),
            }) && n == next,
        },
        r matches Some((_, n)) ==> start < n <= units@.len(),
{
    if units[start] != INLINE_TEXT_START {
        return None;
    }
    let e = find_inline_end(units, start);
    if e >= units.len() || e - start > scan::SKIPPED_INLINE_MAX_UNITS {
        return None;
    }
    let cs = if start >= 6 {
        start - 6
    } else {
        0
    };
    let mut context: Vec<u16> = Vec::new();
    let mut k = cs;
    while k < start
        invariant
            cs <= k <= start < units@.len(),
            context@ =~= units@.subrange(cs as int, k as int),
        decreases start - k,
    {
        context.push(units[k]);
        k = k + 1;
    }
    let mut text: Vec<char> = Vec::new();
    push_units_text(&mut text, units, start + 1, e, false);
    assert(text@ =~= filtered_text(units@.subrange(start + 1, e as int)));
    let raw = be_bytes_of(units, cs, e + 1);
    let seg = SkippedInlineTextSegment::new(context, string_of(text.as_slice()), raw);
    Some((seg, e + 1))
}

/// Parses a DocumentText stream into runs, inline segments and control boundaries.
pub fn parse_document_text(data: &[u8]) -> (r: ParsedDocumentText)
    ensures
        r@ == spec_parse_document_text(data@),
{
    let units = to_be_units(data);
    if is_raw_text_segment_exec(data, &units) {
        return parse_raw_text_segment(&units);
    }
    let n = units.len();
    let limit = document_text_unit_limit(data, n);
    let ghost u = units@;
    let mut elements: Vec<DocumentTextElement> = Vec::new();
    let mut run: Vec<char> = Vec::new();
    let mut reading_text = false;
    let mut has_prose = false;
    let mut index: usize = 0;
    let mut numbering = NumberingState::new();
    assert(element_views(elements@) =~= Seq::<ElementModel>::empty());
    if has_text_segment_exec(data) && data.len() >= 32 {
        proof {
            lemma_marker_from(u, 16, limit as int);
        }
        let m = match first_text_marker(units.as_slice(), 16, limit) {
            Some(m) => m,
            None => limit,
        };
        match decode_prologue_chars(units.as_slice(), 16, m) {
            Some((t, _)) => {
                push_element(&mut elements, DocumentTextElement::TextRun(string_of(t.as_slice())));
                index = m;
                has_prose = true;
                assert(element_views(elements@) =~= seq![ElementModel::TextRun(t@)]);
            },
            None => {},
        }
    }
    let ghost init = scan_view(index, elements@, run@, reading_text, has_prose, numbering@);
    assert(init == scan_start(data@));
    let ghost fin = parse_from(u, limit as int, init);
    while index < limit
        invariant
            units@ == u,
            u == be_units(data@),
            limit <= n == u.len(),
            index <= n,
            counters_within(numbering@, index as int),
            parse_from(u, limit as int, scan_view(index, elements@, run@, reading_text, has_prose, numbering@)) == fin,
        decreases n - index,
    {
        let ghost before = scan_view(index, elements@, run@, reading_text, has_prose, numbering@);
        let code = units[index];
        if code == TEXT_RUN_MARKER {
            if !is_document_text_run_start(units.as_slice(), index, has_prose) {
                index = index + 1;
            } else {
                proof {
                    lemma_header_prefix_counters(u, index as int, numbering@, index as int);
                }
                push_run(&mut elements, &mut run);
                let prefix = paragraph_header_prefix(units.as_slice(), index, &mut numbering);
                match prefix {
                    Some(p) => {
                        run = p;
                    },
                    None => {},
                }
                reading_text = true;
                has_prose = true;
                index = index + 1;
            }
        } else if code == INLINE_TEXT_START {
            push_run(&mut elements, &mut run);
            reading_text = false;
            match inline_text_selector(units.as_slice(), index) {
                Some(selector) => {
                    let (text, next) = read_inline_text(units.as_slice(), index);
                    if text.len() > 0 {
                        let seg = InlineTextSegment::new(selector, string_of(text.as_slice()));
                        push_element(&mut elements, DocumentTextElement::InlineText(seg));
                    }
                    index = next;
                    has_prose = true;
                },
                None => {
                    let skipped = if skipped_inline_selector(units.as_slice(), index).is_some() {
                        read_skipped_inline_segment(units.as_slice(), index)
                    } else {
                        None
                    };
                    match skipped {
                        Some((seg, next)) => {
                            push_element(&mut elements, DocumentTextElement::SkippedInlineText(seg));
                            index = next;
                        },
                        None => {
                            push_element(
                                &mut elements,
                                DocumentTextElement::ControlBoundary(DocumentTextControl::new(code)),
                            );
                            index = index + 1;
                        },
                    }
                },
            }
        } else if reading_text {
            if is_control_boundary(code) || is_invalid_scalar(code) {
                push_run(&mut elements, &mut run);
                push_element(
                    &mut elements,
                    DocumentTextElement::ControlBoundary(DocumentTextControl::new(code)),
                );
                reading_text = code == scan::TEXT_ROW_DELIMITER || code
                    == scan::DOCUMENT_TEXT_PAGE_BREAK_CONTROL || code
                    == scan::DOCUMENT_TEXT_INLINE_SPACE_CONTROL;
            } else {
                run.push(unit_to_char(code));
                has_prose = true;
            }
            index = index + 1;
        } else {
            index = index + 1;
        }
        let ghost after = scan_view(index, elements@, run@, reading_text, has_prose, numbering@);
        assert(after == parse_step(u, before));
        assert(before.index < after.index <= u.len());
    }
    push_run(&mut elements, &mut run);
    ParsedDocumentText::new(elements)
}

/// The plain text of a DocumentText stream.
pub fn extract_document_text(data: &[u8]) -> (r: String)
    ensures
        r@ == spec_extract_document_text(data@),
{
    parse_document_text(data).plain_text()
}


/// What a map entry covers.
#[derive(Debug, Clone, Copy, PartialEq, Eq, Structural)]
pub enum DocumentTextMapKind {
    TextRun,
    InlineText,
    SkippedInlineText,
    ControlBoundary,
}

/// Name of a map entry kind.
pub open spec fn kind_name(k: DocumentTextMapKind) -> Seq<char> {
    match k {
        DocumentTextMapKind::TextRun => seq!['t', 'e', 'x', 't'],
        DocumentTextMapKind::InlineText => seq!['i', 'n', 'l', 'i', 'n', 'e'],
        DocumentTextMapKind::SkippedInlineText => seq![
            's',
            'k',
            'i',
            'p',
            'p',
            'e',
            'd',
            '-',
            'i',
            'n',
            'l',
            'i',
            'n',
            'e',
        ],
        DocumentTextMapKind::ControlBoundary => seq!['c', 'o', 'n', 't', 'r', 'o', 'l'],
    }
}

impl DocumentTextMapKind {
    pub fn as_str(self) -> (r: &'static str)
        ensures
            r@ == kind_name(self),
    {
        match self {
            DocumentTextMapKind::TextRun => {
                let r = "text";
                proof {
                    reveal_strlit("text");
                }
                assert(r@ =~= kind_name(self));
                r
            },
            DocumentTextMapKind::InlineText => {
                let r = "inline";
                proof {
                    reveal_strlit("inline");
                }
                assert(r@ =~= kind_name(self));
                r
            },
            DocumentTextMapKind::SkippedInlineText => {
                let r = "skipped-inline";
                proof {
                    reveal_strlit("skipped-inline");
                }
                assert(r@ =~= kind_name(self));
                r
            },
            DocumentTextMapKind::ControlBoundary => {
                let r = "control";
                proof {
                    reveal_strlit("control");
                }
                assert(r@ =~= kind_name(self));
                r
            },
        }
    }
}

/// A map entry: the source range it covers (in bytes and in units), its kind, and its text.
pub struct EntryModel {
    pub byte_start: int,
    pub byte_end: int,
    pub unit_start: int,
    pub unit_end: int,
    pub kind: DocumentTextMapKind,
    pub selector: Option<u16>,
    pub code: Option<u16>,
    pub text: Seq<char>,
}

/// The entry for units `[us, ue)`; byte offsets are twice the unit offsets.
pub open spec fn map_entry(
    us: int,
    ue: int,
    kind: DocumentTextMapKind,
    selector: Option<u16>,
    code: Option<u16>,
    text: Seq<char>,
) -> EntryModel {
    EntryModel {
        byte_start: 2 * us,
        byte_end: 2 * ue,
        unit_start: us,
        unit_end: ue,
        kind,
        selector,
        code,
        text,
    }
}

#[derive(Debug, Clone, PartialEq, Eq)]
pub struct DocumentTextMapEntry {
    byte_start: usize,
    byte_end: usize,
    unit_start: usize,
    unit_end: usize,
    kind: DocumentTextMapKind,
    selector: Option<u16>,
    code: Option<u16>,
    text: String,
}

impl View for DocumentTextMapEntry {
    type V = EntryModel;

    closed spec fn view(&self) -> EntryModel {
        EntryModel {
            byte_start: self.byte_start as int,
            byte_end: self.byte_end as int,
            unit_start: self.unit_start as int,
            unit_end: self.unit_end as int,
            kind: self.kind,
            selector: self.selector,
            code: self.code,
            text: self.text@,
        }
    }
}

impl DocumentTextMapEntry {
    fn new(
        unit_start: usize,
        unit_end: usize,
        kind: DocumentTextMapKind,
        selector: Option<u16>,
        code: Option<u16>,
        text: String,
    ) -> (r: Self)
        requires
            unit_start <= unit_end <= usize::MAX / 2,
        ensures
            r@ == map_entry(unit_start as int, unit_end as int, kind, selector, code, text@),
    {
        DocumentTextMapEntry {
            byte_start: unit_start * 2,
            byte_end: unit_end * 2,
            unit_start,
            unit_end,
            kind,
            selector,
            code,
            text,
        }
    }

    pub fn byte_start(&self) -> (r: usize)
        ensures
            r == self@.byte_start,
    {
        self.byte_start
    }

    pub fn byte_end(&self) -> (r: usize)
        ensures
            r == self@.byte_end,
    {
        self.byte_end
    }

    pub fn unit_start(&self) -> (r: usize)
        ensures
            r == self@.unit_start,
    {
        self.unit_start
    }

    pub fn unit_end(&self) -> (r: usize)
        ensures
            r == self@.unit_end,
    {
        self.unit_end
    }

    pub fn kind(&self) -> (r: DocumentTextMapKind)
        ensures
            r == self@.kind,
    {
        self.kind
    }

    pub fn selector(&self) -> (r: Option<u16>)
        ensures
            r == self@.selector,
    {
        self.selector
    }

    pub fn code(&self) -> (r: Option<u16>)
        ensures
            r == self@.code,
    {
        self.code
    }

    pub fn text(&self) -> (r: &str)
        ensures
            r@ == self@.text,
    {
        self.text.as_str()
    }

    pub fn contains_byte_offset(&self, offset: usize) -> (r: bool)
        ensures
            r == (self@.byte_start <= offset < self@.byte_end),
    {
        self.byte_start <= offset && offset < self.byte_end
    }

    pub fn contains_unit_offset(&self, offset: usize) -> (r: bool)
        ensures
            r == (self@.unit_start <= offset < self@.unit_end),
    {
        self.unit_start <= offset && offset < self.unit_end
    }
}

/// Entry models of a sequence of entries.
pub open spec fn entry_views(v: Seq<DocumentTextMapEntry>) -> Seq<EntryModel> {
    v.map_values(|e: DocumentTextMapEntry| e@)
}

/// Source map of a DocumentText stream.
#[derive(Debug, Clone, PartialEq, Eq)]
pub struct DocumentTextMap {
    entries: Vec<DocumentTextMapEntry>,
}

impl View for DocumentTextMap {
    type V = Seq<EntryModel>;

    closed spec fn view(&self) -> Seq<EntryModel> {
        entry_views(self.entries@)
    }
}

impl DocumentTextMap {
    pub fn entries(&self) -> (r: &[DocumentTextMapEntry])
        ensures
            entry_views(r@) == self@,
    {
        self.entries.as_slice()
    }
}

/// State of the mapping scan.
pub struct MapState {
    pub index: int,
    pub entries: Seq<EntryModel>,
    pub run: Seq<char>,
    pub run_start: int,
    pub reading_text: bool,
    pub has_prose: bool,
}

/// Entries with the pending run (covering `[run_start, run_end)`) appended when not empty.
pub open spec fn map_run_pushed(es: Seq<EntryModel>, run: Seq<char>, run_start: int, run_end: int) -> Seq<
    EntryModel,
> {
    if run.len() > 0 {
        es.push(map_entry(run_start, run_end, DocumentTextMapKind::TextRun, None, None, run))
    } else {
        es
    }
}

/// One step of the mapping scan at an inline opener 0x001d.
pub open spec fn map_inline_step(u: Seq<u16>, s: MapState) -> MapState {
    let i = s.index;
    let es = map_run_pushed(s.entries, s.run, s.run_start, i);
    match spec_inline_text_selector(u, i) {
        Some(sel) => {
            let (t, next) = spec_inline_segment(u, i);
            MapState {
                index: next,
                entries: es.push(
                    map_entry(i, next, DocumentTextMapKind::InlineText, Some(sel), None, t),
                ),
                run: Seq::empty(),
                reading_text: false,
                has_prose: true,
                ..s
            }
        },
        None => {
            if spec_skipped_inline_selector(u, i) is Some && spec_skipped_segment(u, i) is Some {
                let (ctx, t, raw, next) = spec_skipped_segment(u, i).unwrap();
                MapState {
                    index: next,
                    entries: es.push(
                        map_entry(
                            i,
                            next,
                            DocumentTextMapKind::SkippedInlineText,
                            last_of(ctx),
                            None,
                            t,
                        ),
                    ),
                    run: Seq::empty(),
                    reading_text: false,
                    ..s
                }
            } else {
                MapState {
                    index: i + 1,
                    entries: es.push(
                        map_entry(
                            i,
                            i + 1,
                            DocumentTextMapKind::ControlBoundary,
                            None,
                            Some(INLINE_TEXT_START),
                            Seq::empty(),
                        ),
                    ),
                    run: Seq::empty(),
                    reading_text: false,
                    ..s
                }
            }
        },
    }
}

/// One step of the mapping scan at `s.index`.
pub open spec fn map_step(u: Seq<u16>, s: MapState) -> MapState {
    let i = s.index;
    let code = u[i];
    if code == TEXT_RUN_MARKER {
        if !spec_run_start(u, i, s.has_prose) {
            MapState { index: i + 1, ..s }
        } else {
            MapState {
                index: i + 1,
                entries: map_run_pushed(s.entries, s.run, s.run_start, i),
                run: Seq::empty(),
                reading_text: true,
                has_prose: true,
                ..s
            }
        }
    } else if code == INLINE_TEXT_START {
        map_inline_step(u, s)
    } else if s.reading_text {
        if spec_is_control_boundary(code) || spec_is_invalid_scalar(code) {
            MapState {
                index: i + 1,
                entries: map_run_pushed(s.entries, s.run, s.run_start, i).push(
                    map_entry(
                        i,
                        i + 1,
                        DocumentTextMapKind::ControlBoundary,
                        None,
                        Some(code),
                        Seq::empty(),
                    ),
                ),
                run: Seq::empty(),
                run_start: i + 1,
                reading_text: continues_reading(code),
                ..s
            }
        } else {
            MapState {
                index: i + 1,
                run: s.run.push(unit_char(code)),
                run_start: if s.run.len() == 0 {
                    i
                } else {
                    s.run_start
                },
                has_prose: true,
                ..s
            }
        }
    } else {
        MapState { index: i + 1, ..s }
    }
}

/// The mapping scan from state `s` up to unit `limit`.
pub open spec fn map_from(u: Seq<u16>, limit: int, s: MapState) -> MapState
    decreases u.len() - s.index,
{
    if 0 <= s.index < limit && limit <= u.len() {
        let t = map_step(u, s);
        if s.index < t.index <= u.len() {
            map_from(u, limit, t)
        } else {
            s
        }
    } else {
        s
    }
}

/// Where the mapping scan starts (mirrors `scan_start`).
pub open spec fn map_start(data: Seq<u8>) -> MapState {
    let u = be_units(data);
    let init = MapState {
        index: 0,
        entries: Seq::empty(),
        run: Seq::empty(),
        run_start: 0,
        reading_text: false,
        has_prose: false,
    };
    if has_content_header(data) {
        let m = marker_from(u, 16, unit_limit(data));
        match spec_decode_prologue_units(u, 16, m) {
            Some((t, _)) => MapState {
                index: m,
                entries: seq![map_entry(16, m, DocumentTextMapKind::TextRun, None, None, t)],
                has_prose: true,
                ..init
            },
            None => init,
        }
    } else {
        init
    }
}

/// The source map of a DocumentText stream.
pub open spec fn spec_map_document_text(data: Seq<u8>) -> Seq<EntryModel> {
    let u = be_units(data);
    let limit = unit_limit(data);
    let fin = map_from(u, limit, map_start(data));
    map_run_pushed(fin.entries, fin.run, fin.run_start, limit)
}

/// Entries cover well-formed unit ranges (and twice those byte ranges) in stream order,
/// without overlap.
pub open spec fn entries_in_order(es: Seq<EntryModel>) -> bool {
    &&& forall|j: int| 0 <= j < es.len() ==> (#[trigger] es[j]).unit_start <= es[j].unit_end
    &&& forall|j: int|
        0 <= j < es.len() ==> (#[trigger] es[j]).byte_start == 2 * es[j].unit_start
            && es[j].byte_end == 2 * es[j].unit_end
    &&& forall|j: int, k: int|
        0 <= j < k < es.len() ==> (#[trigger] es[j]).unit_end <= (#[trigger] es[k]).unit_start
}

/// A mapping scan state whose entries are in order, end before the scan position, and
/// leave room for the pending run.
pub open spec fn map_state_ok(s: MapState, limit: int) -> bool {
    &&& entries_in_order(s.entries)
    &&& s.entries.len() > 0 ==> s.entries.last().unit_end <= s.index
    &&& s.run.len() > 0 ==> s.run_start < s.index <= limit
    &&& s.run.len() > 0 && s.entries.len() > 0 ==> s.entries.last().unit_end <= s.run_start
}

proof fn lemma_entries_push(es: Seq<EntryModel>, e: EntryModel)
    requires
        entries_in_order(es),
        e.unit_start <= e.unit_end,
        e.byte_start == 2 * e.unit_start,
        e.byte_end == 2 * e.unit_end,
        es.len() > 0 ==> es.last().unit_end <= e.unit_start,
    ensures
        entries_in_order(es.push(e)),
        es.push(e).last() == e,
{
    let r = es.push(e);
    assert forall|j: int| 0 <= j < r.len() implies (#[trigger] r[j]).unit_start <= r[j].unit_end
        && r[j].byte_start == 2 * r[j].unit_start && r[j].byte_end == 2 * r[j].unit_end by {
        if j < es.len() {
            assert(r[j] == es[j]);
        }
    }
    assert forall|j: int, k: int| 0 <= j < k < r.len() implies (#[trigger] r[j]).unit_end <= (
    #[trigger] r[k]).unit_start by {
        assert(r[j] == es[j]);
        if k < es.len() {
            assert(r[k] == es[k]);
        } else {
            let n = es.len() - 1;
            if j < n {
                assert(es[j].unit_end <= es[n].unit_start);
            }
            assert(es[n].unit_start <= es[n].unit_end);
        }
    }
}

proof fn lemma_map_run_pushed(s: MapState, limit: int, end: int)
    requires
        map_state_ok(s, limit),
        s.run.len() > 0 ==> s.index <= end,
    ensures
        entries_in_order(map_run_pushed(s.entries, s.run, s.run_start, end)),
        s.index <= end && map_run_pushed(s.entries, s.run, s.run_start, end).len() > 0
            ==> map_run_pushed(s.entries, s.run, s.run_start, end).last().unit_end <= end,
{
    if s.run.len() > 0 {
        lemma_entries_push(
            s.entries,
            map_entry(s.run_start, end, DocumentTextMapKind::TextRun, None, None, s.run),
        );
    }
}

proof fn lemma_map_step(u: Seq<u16>, limit: int, s: MapState)
    requires
        map_state_ok(s, limit),
        0 <= s.index < limit <= u.len(),
        s.index < map_step(u, s).index,
    ensures
        map_state_ok(map_step(u, s), limit),
{
    let i = s.index;
    let code = u[i];
    let t = map_step(u, s);
    if code == TEXT_RUN_MARKER {
        if spec_run_start(u, i, s.has_prose) {
            lemma_map_run_pushed(s, limit, i);
        }
    } else if code == INLINE_TEXT_START {
        lemma_map_run_pushed(s, limit, i);
        let es = map_run_pushed(s.entries, s.run, s.run_start, i);
        lemma_entries_push(es, t.entries.last());
        assert(t.entries == es.push(t.entries.last()));
    } else if s.reading_text {
        if spec_is_control_boundary(code) || spec_is_invalid_scalar(code) {
            lemma_map_run_pushed(s, limit, i);
            let es = map_run_pushed(s.entries, s.run, s.run_start, i);
            lemma_entries_push(es, t.entries.last());
            assert(t.entries == es.push(t.entries.last()));
        }
    }
}

proof fn lemma_map_from(u: Seq<u16>, limit: int, s: MapState)
    requires
        map_state_ok(s, limit),
        0 <= s.index,
    ensures
        map_state_ok(map_from(u, limit, s), limit),
        map_from(u, limit, s).index >= s.index,
    decreases u.len() - s.index,
{
    if 0 <= s.index < limit && limit <= u.len() {
        let t = map_step(u, s);
        if s.index < t.index <= u.len() {
            lemma_map_step(u, limit, s);
            lemma_map_from(u, limit, t);
        }
    }
}

/// The source map lists its entries in stream order: each covers a unit range (and twice
/// that byte range), and each ends before the next one starts.
pub proof fn lemma_map_entries_in_order(data: Seq<u8>)
    ensures
        entries_in_order(spec_map_document_text(data)),
        forall|j: int|
            0 <= j < spec_map_document_text(data).len() ==> (#[trigger] spec_map_document_text(
                data,
            )[j]).byte_start == 2 * spec_map_document_text(data)[j].unit_start
                && spec_map_document_text(data)[j].byte_end == 2 * spec_map_document_text(
                data,
            )[j].unit_end,
{
    let u = be_units(data);
    let limit = unit_limit(data);
    let s0 = map_start(data);
    if has_content_header(data) {
        lemma_marker_from(u, 16, limit);
    }
    assert(map_state_ok(s0, limit));
    lemma_map_from(u, limit, s0);
    let fin = map_from(u, limit, s0);
    lemma_map_run_pushed(fin, limit, limit);
}

/// Shape of one source-map entry of a stream of `n` units: a non-empty unit range within
/// the stream; a control boundary carries its code, spans one unit and holds no text or
/// selector, and no other entry carries a code; exactly the inline entries carry a
/// selector, and a display inline segment's selector is 0x0001, 0x0003 or 0x0013.
pub open spec fn map_entry_ok(e: EntryModel, n: int) -> bool {
    &&& 0 <= e.unit_start < e.unit_end <= n
    &&& (e.kind == DocumentTextMapKind::ControlBoundary) == (e.code is Some)
    &&& e.kind == DocumentTextMapKind::ControlBoundary ==> e.unit_end == e.unit_start + 1
        && e.text.len() == 0 && e.selector is None
    &&& (e.selector is Some) == (e.kind == DocumentTextMapKind::InlineText || e.kind
        == DocumentTextMapKind::SkippedInlineText)
    &&& e.kind == DocumentTextMapKind::InlineText ==> (e.selector == Some(0x0001u16) || e.selector
        == Some(0x0003u16) || e.selector == Some(0x0013u16))
}

pub open spec fn map_entries_ok(s: MapState, n: int) -> bool {
    &&& forall|j: int| 0 <= j < s.entries.len() ==> map_entry_ok(#[trigger] s.entries[j], n)
    &&& 0 <= s.index <= n
    &&& s.run.len() > 0 ==> 0 <= s.run_start
}

proof fn lemma_entries_ok_push(es: Seq<EntryModel>, e: EntryModel, n: int)
    requires
        forall|j: int| 0 <= j < es.len() ==> map_entry_ok(#[trigger] es[j], n),
        map_entry_ok(e, n),
    ensures
        forall|j: int| 0 <= j < es.push(e).len() ==> map_entry_ok(#[trigger] es.push(e)[j], n),
{
    assert forall|j: int| 0 <= j < es.push(e).len() implies map_entry_ok(#[trigger] es.push(e)[j], n) by {
        if j < es.len() {
            assert(es.push(e)[j] == es[j]);
        }
    }
}

proof fn lemma_run_pushed_ok(s: MapState, limit: int, end: int, n: int)
    requires
        map_state_ok(s, limit),
        map_entries_ok(s, n),
        s.run.len() > 0 ==> s.index <= end,
        end <= n,
    ensures
        forall|j: int|
            0 <= j < map_run_pushed(s.entries, s.run, s.run_start, end).len() ==> map_entry_ok(
                #[trigger] map_run_pushed(s.entries, s.run, s.run_start, end)[j],
                n,
            ),
{
    if s.run.len() > 0 {
        lemma_entries_ok_push(
            s.entries,
            map_entry(s.run_start, end, DocumentTextMapKind::TextRun, None, None, s.run),
            n,
        );
    }
}

proof fn lemma_map_step_entries_ok(u: Seq<u16>, limit: int, s: MapState)
    requires
        map_state_ok(s, limit),
        map_entries_ok(s, u.len() as int),
        0 <= s.index < limit <= u.len(),
        s.index < map_step(u, s).index <= u.len(),
    ensures
        map_entries_ok(map_step(u, s), u.len() as int),
{
    let n = u.len() as int;
    let i = s.index;
    let code = u[i];
    let t = map_step(u, s);
    if code == TEXT_RUN_MARKER {
        if spec_run_start(u, i, s.has_prose) {
            lemma_run_pushed_ok(s, limit, i, n);
        }
    } else if code == INLINE_TEXT_START {
        lemma_run_pushed_ok(s, limit, i, n);
        let es = map_run_pushed(s.entries, s.run, s.run_start, i);
        let e = t.entries.last();
        assert(t.entries == es.push(e));
        if spec_inline_text_selector(u, i) is None && spec_skipped_inline_selector(u, i) is Some
            && spec_skipped_segment(u, i) is Some {
            let (ctx, tx, raw, next) = spec_skipped_segment(u, i).unwrap();
            assert(ctx.len() > 0);
        }
        assert(map_entry_ok(e, n));
        lemma_entries_ok_push(es, e, n);
    } else if s.reading_text {
        if spec_is_control_boundary(code) || spec_is_invalid_scalar(code) {
            lemma_run_pushed_ok(s, limit, i, n);
            let es = map_run_pushed(s.entries, s.run, s.run_start, i);
            lemma_entries_ok_push(es, t.entries.last(), n);
            assert(t.entries == es.push(t.entries.last()));
        }
    }
}

proof fn lemma_map_from_entries_ok(u: Seq<u16>, limit: int, s: MapState)
    requires
        map_state_ok(s, limit),
        map_entries_ok(s, u.len() as int),
    ensures
        map_entries_ok(map_from(u, limit, s), u.len() as int),
    decreases u.len() - s.index,
{
    if 0 <= s.index < limit && limit <= u.len() {
        let t = map_step(u, s);
        if s.index < t.index <= u.len() {
            lemma_map_step(u, limit, s);
            lemma_map_step_entries_ok(u, limit, s);
            lemma_map_from_entries_ok(u, limit, t);
        }
    }
}

/// Every entry of the source map has the shape `map_entry_ok` gives: a non-empty unit range
/// within the data, and kind, code, selector and text that agree.
pub proof fn lemma_map_entries_well_formed(data: Seq<u8>)
    ensures
        forall|j: int|
            0 <= j < spec_map_document_text(data).len() ==> map_entry_ok(
                #[trigger] spec_map_document_text(data)[j],
                be_units(data).len() as int,
            ),
{
    let u = be_units(data);
    let n = u.len() as int;
    let limit = unit_limit(data);
    let s0 = map_start(data);
    if has_content_header(data) {
        lemma_marker_from(u, 16, limit);
        let mk = marker_from(u, 16, limit);
        lemma_prologue_boundary(u, 16, mk);
        if prologue_boundary(u, 16, mk) == 16 {
            assert(u.subrange(16, 16) =~= Seq::<u16>::empty());
        }
    }
    assert(map_state_ok(s0, limit));
    assert(map_entries_ok(s0, n));
    lemma_map_from(u, limit, s0);
    lemma_map_from_entries_ok(u, limit, s0);
    let fin = map_from(u, limit, s0);
    lemma_run_pushed_ok(fin, limit, limit, n);
}

/// The text an entry maps: that of runs and display inline segments.
pub open spec fn entry_text(e: EntryModel) -> Seq<char> {
    if e.kind == DocumentTextMapKind::TextRun || e.kind == DocumentTextMapKind::InlineText {
        e.text
    } else {
        Seq::empty()
    }
}

/// Concatenated text of the entries, in order.
pub open spec fn entries_text(es: Seq<EntryModel>) -> Seq<char>
    decreases es.len(),
{
    if es.len() == 0 {
        Seq::empty()
    } else {
        entries_text(es.drop_last()) + entry_text(es.last())
    }
}

/// The unit 0x00a3 (the list-style tag of paragraph headers) occurs nowhere in `u`.
pub open spec fn has_no_list_style_tag(u: Seq<u16>) -> bool {
    forall|i: int| 0 <= i < u.len() ==> u[i] != 0x00a3
}

proof fn lemma_no_tag_value(h: Seq<u16>, k: int)
    requires
        has_no_list_style_tag(h),
    ensures
        numbering::tagged_value(h, 0x00a3, k) is None,
    decreases h.len() - k,
{
    if 0 <= k && k + 3 <= h.len() {
        assert(h[k] != 0x00a3);
        lemma_no_tag_value(h, k + 1);
    }
}

proof fn lemma_no_header_prefix(u: Seq<u16>, m: int, st: NumberingModel)
    requires
        has_no_list_style_tag(u),
    ensures
        spec_header_prefix(u, m, st).0 is None,
{
    if 3 <= m < u.len() && u[m - 2] == 0 && u[m - 1] == 0x0010 {
        let total = u[m - 3] as int;
        if !(total < 4 || m + 1 < total) {
            let start = m + 1 - total;
            let h = u.subrange(start, m + 1);
            assert forall|i: int| 0 <= i < h.len() implies h[i] != 0x00a3 by {
                assert(h[i] == u[start + i]);
            }
            lemma_no_tag_value(h, 0);
        }
    }
}

/// The parse and the map have read the same: same position and reading state, the same
/// pending run, and the same text so far.
pub open spec fn scans_agree(p: ScanState, m: MapState) -> bool {
    &&& p.index == m.index
    &&& p.reading_text == m.reading_text
    &&& p.has_prose == m.has_prose
    &&& p.run == m.run
    &&& elements_text(p.elements) == entries_text(m.entries)
}

proof fn lemma_flush_agree(els: Seq<ElementModel>, es: Seq<EntryModel>, run: Seq<char>, rs: int, re: int)
    requires
        elements_text(els) == entries_text(es),
    ensures
        elements_text(flush_run(els, run)) == entries_text(map_run_pushed(es, run, rs, re)),
{
    if run.len() > 0 {
        assert(flush_run(els, run).drop_last() =~= els);
        assert(map_run_pushed(es, run, rs, re).drop_last() =~= es);
    }
}

proof fn lemma_steps_agree(u: Seq<u16>, p: ScanState, m: MapState)
    requires
        scans_agree(p, m),
        has_no_list_style_tag(u),
        0 <= p.index < u.len(),
    ensures
        scans_agree(parse_step(u, p), map_step(u, m)),
{
    let i = p.index;
    let code = u[i];
    let ps = parse_step(u, p);
    let ms = map_step(u, m);
    if code == TEXT_RUN_MARKER {
        if spec_run_start(u, i, p.has_prose) {
            lemma_no_header_prefix(u, i, p.numbering);
            lemma_flush_agree(p.elements, m.entries, p.run, m.run_start, i);
        }
    } else if code == INLINE_TEXT_START {
        let els = flush_run(p.elements, p.run);
        let es = map_run_pushed(m.entries, m.run, m.run_start, i);
        lemma_flush_agree(p.elements, m.entries, p.run, m.run_start, i);
        assert(ms.entries.drop_last() =~= es);
        if ps.elements.len() > els.len() {
            assert(ps.elements.drop_last() =~= els);
        }
    } else if p.reading_text {
        if spec_is_control_boundary(code) || spec_is_invalid_scalar(code) {
            let els = flush_run(p.elements, p.run);
            let es = map_run_pushed(m.entries, m.run, m.run_start, i);
            lemma_flush_agree(p.elements, m.entries, p.run, m.run_start, i);
            assert(ps.elements.drop_last() =~= els);
            assert(ms.entries.drop_last() =~= es);
        }
    }
}

proof fn lemma_scans_agree(u: Seq<u16>, limit: int, p: ScanState, m: MapState)
    requires
        scans_agree(p, m),
        has_no_list_style_tag(u),
    ensures
        scans_agree(parse_from(u, limit, p), map_from(u, limit, m)),
    decreases u.len() - p.index,
{
    if 0 <= p.index < limit && limit <= u.len() {
        lemma_steps_agree(u, p, m);
        let t = parse_step(u, p);
        if p.index < t.index <= u.len() {
            lemma_scans_agree(u, limit, t, map_step(u, m));
        }
    }
}

/// The source map and the parse read the same text: for a marker-structured stream (not a
/// raw text segment) without numbered paragraph headers (no list-style tag 0x00a3), the
/// texts of the map's run and display-inline entries, in order, are the parsed text.
pub proof fn lemma_map_text_matches_parse(data: Seq<u8>)
    requires
        !is_raw_text_segment(data),
        has_no_list_style_tag(be_units(data)),
    ensures
        entries_text(spec_map_document_text(data)) == elements_text(spec_parse_document_text(data)),
{
    let u = be_units(data);
    let limit = unit_limit(data);
    let p0 = scan_start(data);
    let m0 = map_start(data);
    if has_content_header(data) {
        let mk = marker_from(u, 16, limit);
        match spec_decode_prologue_units(u, 16, mk) {
            Some((t, _)) => {
                reveal_with_fuel(elements_text, 2);
                reveal_with_fuel(entries_text, 2);
                assert(p0.elements.drop_last() =~= Seq::<ElementModel>::empty());
                assert(m0.entries.drop_last() =~= Seq::<EntryModel>::empty());
            },
            None => {},
        }
    }
    assert(scans_agree(p0, m0));
    lemma_scans_agree(u, limit, p0, m0);
    let pf = parse_from(u, limit, p0);
    let mf = map_from(u, limit, m0);
    lemma_flush_agree(pf.elements, mf.entries, pf.run, mf.run_start, limit);
}

/// Exec state of the mapping scan, viewed as a `MapState`.
pub open spec fn map_view(
    index: usize,
    entries: Seq<DocumentTextMapEntry>,
    run: Seq<char>,
    run_start: usize,
    reading_text: bool,
    has_prose: bool,
) -> MapState {
    MapState {
        index: index as int,
        entries: entry_views(entries),
        run,
        run_start: run_start as int,
        reading_text,
        has_prose,
    }
}

fn push_entry(entries: &mut Vec<DocumentTextMapEntry>, e: DocumentTextMapEntry)
    ensures
        entry_views(final(entries)@) == entry_views(old(entries)@).push(e@),
{
    let ghost ev = e@;
    entries.push(e);
    assert(entry_views(entries@) =~= entry_views(old(entries)@).push(ev));
}

fn push_map_run(entries: &mut Vec<DocumentTextMapEntry>, run: &mut Vec<char>, run_start: usize, run_end: usize)
    requires
        old(run)@.len() > 0 ==> run_start <= run_end <= usize::MAX / 2,
    ensures
        entry_views(final(entries)@) == map_run_pushed(
            entry_views(old(entries)@),
            old(run)@,
            run_start as int,
            run_end as int,
        ),
        final(run)@ == Seq::<char>::empty(),
{
    if run.len() > 0 {
        let text = string_of(run.as_slice());
        push_entry(
            entries,
            DocumentTextMapEntry::new(run_start, run_end, DocumentTextMapKind::TextRun, None, None, text),
        );
    }
    *run = Vec::new();
}

/// Maps a DocumentText stream to entries giving each element's source range.
pub fn map_document_text(data: &[u8]) -> (r: DocumentTextMap)
    ensures
        r@ == spec_map_document_text(data@),
{
    let dl = data.len();
    let units = to_be_units(data);
    let n = units.len();
    assert(n <= usize::MAX / 2);
    let limit = document_text_unit_limit(data, n);
    let ghost u = units@;
    let mut entries: Vec<DocumentTextMapEntry> = Vec::new();
    let mut run: Vec<char> = Vec::new();
    let mut run_start: usize = 0;
    let mut reading_text = false;
    let mut has_prose = false;
    let mut index: usize = 0;
    assert(entry_views(entries@) =~= Seq::<EntryModel>::empty());
    if has_text_segment_exec(data) && data.len() >= 32 {
        proof {
            lemma_marker_from(u, 16, limit as int);
        }
        let m = match first_text_marker(units.as_slice(), 16, limit) {
            Some(m) => m,
            None => limit,
        };
        match decode_prologue_chars(units.as_slice(), 16, m) {
            Some((t, _)) => {
                let e = DocumentTextMapEntry::new(
                    16,
                    m,
                    DocumentTextMapKind::TextRun,
                    None,
                    None,
                    string_of(t.as_slice()),
                );
                push_entry(&mut entries, e);
                index = m;
                has_prose = true;
                assert(entry_views(entries@) =~= seq![
                    map_entry(16, m as int, DocumentTextMapKind::TextRun, None, None, t@),
                ]);
            },
            None => {},
        }
    }
    let ghost init = map_view(index, entries@, run@, run_start, reading_text, has_prose);
    assert(init == map_start(data@));
    let ghost fin = map_from(u, limit as int, init);
    while index < limit
        invariant
            units@ == u,
            u == be_units(data@),
            limit <= n == u.len(),
            n <= usize::MAX / 2,
            index <= n,
            run@.len() > 0 ==> run_start < index <= limit,
            map_from(u, limit as int, map_view(index, entries@, run@, run_start, reading_text, has_prose)) == fin,
        decreases n - index,
    {
        let ghost before = map_view(index, entries@, run@, run_start, reading_text, has_prose);
        let code = units[index];
        if code == TEXT_RUN_MARKER {
            if !is_document_text_run_start(units.as_slice(), index, has_prose) {
                index = index + 1;
            } else {
                push_map_run(&mut entries, &mut run, run_start, index);
                reading_text = true;
                has_prose = true;
                index = index + 1;
            }
        } else if code == INLINE_TEXT_START {
            push_map_run(&mut entries, &mut run, run_start, index);
            reading_text = false;
            match inline_text_selector(units.as_slice(), index) {
                Some(selector) => {
                    let (text, next) = read_inline_text(units.as_slice(), index);
                    let e = DocumentTextMapEntry::new(
                        index,
                        next,
                        DocumentTextMapKind::InlineText,
                        Some(selector),
                        None,
                        string_of(text.as_slice()),
                    );
                    push_entry(&mut entries, e);
                    index = next;
                    has_prose = true;
                },
                None => {
                    let skipped = if skipped_inline_selector(units.as_slice(), index).is_some() {
                        read_skipped_inline_segment(units.as_slice(), index)
                    } else {
                        None
                    };
                    match skipped {
                        Some((seg, next)) => {
                            let e = DocumentTextMapEntry::new(
                                index,
                                next,
                                DocumentTextMapKind::SkippedInlineText,
                                seg.selector(),
                                None,
                                seg.text().to_owned(),
                            );
                            push_entry(&mut entries, e);
                            index = next;
                        },
                        None => {
                            let e = DocumentTextMapEntry::new(
                                index,
                                index + 1,
                                DocumentTextMapKind::ControlBoundary,
                                None,
                                Some(code),
                                String::new(),
                            );
                            push_entry(&mut entries, e);
                            index = index + 1;
                        },
                    }
                },
            }
        } else if reading_text {
            if is_control_boundary(code) || is_invalid_scalar(code) {
                push_map_run(&mut entries, &mut run, run_start, index);
                let e = DocumentTextMapEntry::new(
                    index,
                    index + 1,
                    DocumentTextMapKind::ControlBoundary,
                    None,
                    Some(code),
                    String::new(),
                );
                push_entry(&mut entries, e);
                reading_text = code == scan::TEXT_ROW_DELIMITER || code
                    == scan::DOCUMENT_TEXT_PAGE_BREAK_CONTROL || code
                    == scan::DOCUMENT_TEXT_INLINE_SPACE_CONTROL;
                run_start = index + 1;
            } else {
                if run.len() == 0 {
                    run_start = index;
                }
                run.push(unit_to_char(code));
                has_prose = true;
            }
            index = index + 1;
        } else {
            index = index + 1;
        }
        let ghost after = map_view(index, entries@, run@, run_start, reading_text, has_prose);
        assert(after == map_step(u, before));
        assert(before.index < after.index <= u.len());
    }
    push_map_run(&mut entries, &mut run, run_start, limit);
    DocumentTextMap { entries }
}


/// Raw decoding of `units[start..end]` (see `spec_decode_prologue_units`): the text and the
/// index where reading stopped, `None` when nothing is decoded.
pub fn decode_prologue_units(units: &[u16], start: usize, end: usize) -> (r: Option<(String, usize)>)
    requires
        start <= end <= units@.len(),
    ensures
        match spec_decode_prologue_units(units@, start as int, end as int) {
            None => r is None,
            Some((t, b)) => r matches Some((rt, rb)) && rt@ == t && rb == b,
        },
{
    match decode_prologue_chars(units, start, end) {
        Some((t, b)) => Some((string_of(t.as_slice()), b)),
        None => None,
    }
}

/// The plain text of the DocumentText stream formed by `units[from..to]`.
pub fn extract_units_text(units: &[u16], from: usize, to: usize) -> (r: Vec<char>)
    requires
        from <= to <= units@.len(),
    ensures
        r@ == spec_extract_document_text(be_bytes(units@.subrange(from as int, to as int))),
{
    let bytes = be_bytes_of(units, from, to);
    let text = extract_document_text(bytes.as_slice());
    chars_of(text.as_str())
}

} // verus!
