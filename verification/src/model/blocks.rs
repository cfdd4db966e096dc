//! Blocks and inlines of the document model, and the builder that turns DocumentText
//! elements into paragraphs.
use vstd::prelude::*;

use crate::document_text::{
    DocumentTextControl, ElementModel, InlineTextSegment, SkippedInlineTextSegment, SkippedModel,
};
use super::lines::{
    LineSplit, close_split, has_no_break, lemma_split_concat, lemma_split_one, lemma_split_plain,
    no_split,
    split_char, split_from, text_lines,
};
use crate::document_text::{element_text, elements_text};
use crate::record::UnknownRecordKind;
use crate::text::{chars_of, string_of};

verus! {

/// Selector of an inline segment that carries a ruby base.
pub const DOCUMENT_TEXT_RUBY_BASE_SELECTOR: u16 = 0x0003;

/// Selector of a skipped inline segment that carries a ruby annotation.
pub const DOCUMENT_TEXT_RUBY_TEXT_SELECTOR: u16 = 0x0082;

/// Tag recorded as the source of a ruby annotation (the inline opener).
pub const DOCUMENT_TEXT_INLINE_START_TAG: u32 = 0x001d;

/// A style reference: its identifier.
#[derive(Debug, Clone, PartialEq, Eq)]
pub struct StyleRef {
    pub(crate) id: String,
}

impl View for StyleRef {
    type V = Seq<char>;

    closed spec fn view(&self) -> Seq<char> {
        self.id@
    }
}

impl StyleRef {
    pub fn new(id: &str) -> (r: Self)
        ensures
            r@ == id@,
    {
        StyleRef { id: id.to_owned() }
    }

    pub fn id(&self) -> (r: &str)
        ensures
            r@ == self@,
    {
        self.id.as_str()
    }
}

/// Identifier view of an optional style.
pub open spec fn style_view(s: Option<StyleRef>) -> Option<Seq<char>> {
    match s {
        Some(r) => Some(r@),
        None => None,
    }
}

fn style_ref(s: &Option<StyleRef>) -> (r: Option<&StyleRef>)
    ensures
        style_view(*s) == match r {
            Some(x) => Some(x@),
            None => None::<Seq<char>>,
        },
{
    match s {
        Some(x) => Some(x),
        None => None,
    }
}

/// A run of text and its style.
pub struct TextRunView {
    pub text: Seq<char>,
    pub style: Option<Seq<char>>,
}

#[derive(Debug, Clone, PartialEq, Eq)]
pub struct TextRun {
    pub(crate) text: String,
    pub(crate) style: Option<StyleRef>,
}

impl View for TextRun {
    type V = TextRunView;

    closed spec fn view(&self) -> TextRunView {
        TextRunView { text: self.text@, style: style_view(self.style) }
    }
}

impl TextRun {
    pub fn new(text: &str, style: Option<StyleRef>) -> (r: Self)
        ensures
            r@ == (TextRunView { text: text@, style: style_view(style) }),
    {
        TextRun { text: text.to_owned(), style }
    }

    pub fn text(&self) -> (r: &str)
        ensures
            r@ == self@.text,
    {
        self.text.as_str()
    }

    pub fn style(&self) -> (r: Option<&StyleRef>)
        ensures
            self@.style == match r {
                Some(x) => Some(x@),
                None => None::<Seq<char>>,
            },
    {
        style_ref(&self.style)
    }

    pub(crate) fn push_text(&mut self, text: &str)
        ensures
            final(self)@ == (TextRunView { text: old(self)@.text + text@, style: old(self)@.style }),
    {
        let mut merged = chars_of(self.text.as_str());
        let more = chars_of(text);
        crate::text::extend_chars(&mut merged, more.as_slice());
        self.text = string_of(merged.as_slice());
    }
}

/// An object or block the reader keeps without interpreting it: its source tag and bytes.
pub struct ObjectView {
    pub tag: Option<u32>,
    pub payload: Seq<u8>,
}

#[derive(Debug, Clone, PartialEq, Eq)]
pub struct UnknownObject {
    pub(crate) source: UnknownRecordKind,
    pub(crate) payload: Vec<u8>,
}

impl View for UnknownObject {
    type V = ObjectView;

    closed spec fn view(&self) -> ObjectView {
        ObjectView { tag: self.source@, payload: self.payload@ }
    }
}

impl UnknownObject {
    pub fn new(source: UnknownRecordKind, payload: Vec<u8>) -> (r: Self)
        ensures
            r@ == (ObjectView { tag: source@, payload: payload@ }),
    {
        UnknownObject { source, payload }
    }

    pub fn source(&self) -> (r: &UnknownRecordKind)
        ensures
            r@ == self@.tag,
    {
        &self.source
    }

    pub fn payload(&self) -> (r: &[u8])
        ensures
            r@ == self@.payload,
    {
        self.payload.as_slice()
    }
}

#[derive(Debug, Clone, PartialEq, Eq)]
pub struct UnknownBlock {
    pub(crate) source: UnknownRecordKind,
    pub(crate) payload: Vec<u8>,
}

impl View for UnknownBlock {
    type V = ObjectView;

    closed spec fn view(&self) -> ObjectView {
        ObjectView { tag: self.source@, payload: self.payload@ }
    }
}

impl UnknownBlock {
    pub fn new(source: UnknownRecordKind, payload: Vec<u8>) -> (r: Self)
        ensures
            r@ == (ObjectView { tag: source@, payload: payload@ }),
    {
        UnknownBlock { source, payload }
    }

    pub fn source(&self) -> (r: &UnknownRecordKind)
        ensures
            r@ == self@.tag,
    {
        &self.source
    }

    pub fn payload(&self) -> (r: &[u8])
        ensures
            r@ == self@.payload,
    {
        self.payload.as_slice()
    }
}

/// A ruby: the base text shown in the line, its annotation, and where the annotation came
/// from.
pub struct RubyView {
    pub base_text: Seq<char>,
    pub annotation_text: Seq<char>,
    pub annotation_selector: u16,
    pub annotation_source: ObjectView,
}

#[derive(Debug, Clone, PartialEq, Eq)]
pub struct RubyAnnotation {
    pub(crate) base_text: String,
    pub(crate) annotation_text: String,
    pub(crate) annotation_selector: u16,
    pub(crate) annotation_source: UnknownObject,
}

impl View for RubyAnnotation {
    type V = RubyView;

    closed spec fn view(&self) -> RubyView {
        RubyView {
            base_text: self.base_text@,
            annotation_text: self.annotation_text@,
            annotation_selector: self.annotation_selector,
            annotation_source: self.annotation_source@,
        }
    }
}

impl RubyAnnotation {
    pub fn new(
        base_text: &str,
        annotation_text: &str,
        annotation_selector: u16,
        annotation_source: UnknownObject,
    ) -> (r: Self)
        ensures
            r@ == (RubyView {
                base_text: base_text@,
                annotation_text: annotation_text@,
                annotation_selector,
                annotation_source: annotation_source@,
            }),
    {
        RubyAnnotation {
            base_text: base_text.to_owned(),
            annotation_text: annotation_text.to_owned(),
            annotation_selector,
            annotation_source,
        }
    }

    pub fn base_text(&self) -> (r: &str)
        ensures
            r@ == self@.base_text,
    {
        self.base_text.as_str()
    }

    pub fn annotation_text(&self) -> (r: &str)
        ensures
            r@ == self@.annotation_text,
    {
        self.annotation_text.as_str()
    }

    pub fn annotation_selector(&self) -> (r: u16)
        ensures
            r == self@.annotation_selector,
    {
        self.annotation_selector
    }

    pub fn annotation_source(&self) -> (r: &UnknownObject)
        ensures
            r@ == self@.annotation_source,
    {
        &self.annotation_source
    }
}

pub enum InlineView {
    Text(TextRunView),
    Ruby(RubyView),
    Unknown(ObjectView),
}

#[derive(Debug, Clone, PartialEq, Eq)]
pub enum Inline {
    Text(TextRun),
    Ruby(RubyAnnotation),
    Unknown(UnknownObject),
}

impl View for Inline {
    type V = InlineView;

    open spec fn view(&self) -> InlineView {
        match self {
            Inline::Text(r) => InlineView::Text(r@),
            Inline::Ruby(r) => InlineView::Ruby(r@),
            Inline::Unknown(o) => InlineView::Unknown(o@),
        }
    }
}

pub open spec fn inline_views(v: Seq<Inline>) -> Seq<InlineView> {
    Seq::new(v.len(), |i: int| v[i]@)
}

/// The text an inline shows in a line: a run's text, a ruby's base text, nothing for an
/// unknown object.
pub open spec fn inline_text(x: InlineView) -> Seq<char> {
    match x {
        InlineView::Text(r) => r.text,
        InlineView::Ruby(r) => r.base_text,
        InlineView::Unknown(_) => Seq::empty(),
    }
}

/// The texts of the inlines, in order.
pub open spec fn inlines_text(s: Seq<InlineView>) -> Seq<char>
    decreases s.len(),
{
    if s.len() == 0 {
        Seq::empty()
    } else {
        inlines_text(s.drop_last()) + inline_text(s.last())
    }
}

pub struct ParagraphView {
    pub inlines: Seq<InlineView>,
    pub style: Option<Seq<char>>,
}

#[derive(Debug, Clone, PartialEq, Eq)]
pub struct Paragraph {
    pub(crate) inlines: Vec<Inline>,
    pub(crate) style: Option<StyleRef>,
}

impl View for Paragraph {
    type V = ParagraphView;

    closed spec fn view(&self) -> ParagraphView {
        ParagraphView { inlines: inline_views(self.inlines@), style: style_view(self.style) }
    }
}

/// A paragraph of one unstyled run.
pub open spec fn text_paragraph(t: Seq<char>) -> ParagraphView {
    ParagraphView {
        inlines: seq![InlineView::Text(TextRunView { text: t, style: None })],
        style: None,
    }
}

impl Default for Paragraph {
    fn default() -> (r: Self)
        ensures
            r@ == (ParagraphView { inlines: Seq::empty(), style: None }),
    {
        let r = Paragraph { inlines: Vec::new(), style: None };
        assert(r@.inlines =~= Seq::<InlineView>::empty());
        r
    }
}

impl Paragraph {
    pub fn new(inlines: Vec<Inline>, style: Option<StyleRef>) -> (r: Self)
        ensures
            r@ == (ParagraphView { inlines: inline_views(inlines@), style: style_view(style) }),
    {
        Paragraph { inlines, style }
    }

    pub fn from_text(text: &str) -> (r: Self)
        ensures
            r@ == text_paragraph(text@),
    {
        let mut inlines: Vec<Inline> = Vec::new();
        inlines.push(Inline::Text(TextRun::new(text, None)));
        let r = Paragraph { inlines, style: None };
        assert(r@.inlines =~= text_paragraph(text@).inlines);
        r
    }

    pub fn inlines(&self) -> (r: &[Inline])
        ensures
            inline_views(r@) == self@.inlines,
    {
        self.inlines.as_slice()
    }

    pub fn style(&self) -> (r: Option<&StyleRef>)
        ensures
            self@.style == match r {
                Some(x) => Some(x@),
                None => None::<Seq<char>>,
            },
    {
        style_ref(&self.style)
    }
}

pub enum BlockView {
    Paragraph(ParagraphView),
    Unknown(ObjectView),
}

#[derive(Debug, Clone, PartialEq, Eq)]
pub enum Block {
    Paragraph(Paragraph),
    Unknown(UnknownBlock),
}

impl View for Block {
    type V = BlockView;

    open spec fn view(&self) -> BlockView {
        match self {
            Block::Paragraph(p) => BlockView::Paragraph(p@),
            Block::Unknown(b) => BlockView::Unknown(b@),
        }
    }
}

pub open spec fn block_views(v: Seq<Block>) -> Seq<BlockView> {
    Seq::new(v.len(), |i: int| v[i]@)
}

// ----------------------------------------------------------------------------------------
// Splitting a text at its line breaks.

/// A piece of text and whether a line break followed it.
pub type PartView = (Seq<char>, bool);

/// The pieces of `s` from `i` on, `cur` being the piece read so far: each "\r\n", '\r' or
/// '\n' ends a piece; the last piece is followed by no break.
pub open spec fn parts_from(s: Seq<char>, i: int, cur: Seq<char>) -> Seq<PartView>
    decreases s.len() - i,
{
    if i < 0 || i >= s.len() {
        seq![(cur, false)]
    } else if s[i] == '\r' {
        let next = if i + 1 < s.len() && s[i + 1] == '\n' { i + 2 } else { i + 1 };
        seq![(cur, true)] + parts_from(s, next, Seq::empty())
    } else if s[i] == '\n' {
        seq![(cur, true)] + parts_from(s, i + 1, Seq::empty())
    } else {
        parts_from(s, i + 1, cur.push(s[i]))
    }
}

pub open spec fn text_parts(s: Seq<char>) -> Seq<PartView> {
    parts_from(s, 0, Seq::empty())
}

pub(crate) struct SourceTextPart {
    text: String,
    break_after: bool,
}

impl View for SourceTextPart {
    type V = PartView;

    closed spec fn view(&self) -> PartView {
        (self.text@, self.break_after)
    }
}

pub open spec fn part_views(v: Seq<SourceTextPart>) -> Seq<PartView> {
    Seq::new(v.len(), |i: int| v[i]@)
}

fn source_text_parts(text: &str) -> (r: Vec<SourceTextPart>)
    ensures
        part_views(r@) == text_parts(text@),
{
    let s = chars_of(text);
    let mut parts: Vec<SourceTextPart> = Vec::new();
    let mut current: Vec<char> = Vec::new();
    let mut i: usize = 0;
    while i < s.len()
        invariant
            s@ == text@,
            i <= s@.len(),
            part_views(parts@) + parts_from(s@, i as int, current@) == text_parts(s@),
        decreases s@.len() - i,
    {
        let c = s[i];
        if c == '\r' || c == '\n' {
            let ghost before = part_views(parts@);
            let ghost cur = current@;
            let piece = string_of(current.as_slice());
            parts.push(SourceTextPart { text: piece, break_after: true });
            current = Vec::new();
            if c == '\r' && i + 1 < s.len() && s[i + 1] == '\n' {
                i = i + 2;
            } else {
                i = i + 1;
            }
            assert(part_views(parts@) =~= before.push((cur, true)));
            assert(before.push((cur, true)) + parts_from(s@, i as int, current@) =~= before + (
            seq![(cur, true)] + parts_from(s@, i as int, Seq::empty())));
        } else {
            current.push(c);
            i = i + 1;
        }
    }
    let ghost before = part_views(parts@);
    let last = string_of(current.as_slice());
    parts.push(SourceTextPart { text: last, break_after: false });
    assert(part_views(parts@) =~= before + parts_from(s@, i as int, current@));
    parts
}

// ----------------------------------------------------------------------------------------
// The builder.

/// Builder state: the inlines of the paragraph being built, the finished blocks, whether
/// the next run may merge into the last one, and the inline that may become a ruby base.
pub struct BuilderView {
    pub current: Seq<InlineView>,
    pub blocks: Seq<BlockView>,
    pub can_merge: bool,
    pub pending: Option<int>,
}

pub open spec fn empty_builder() -> BuilderView {
    BuilderView { current: Seq::empty(), blocks: Seq::empty(), can_merge: false, pending: None }
}

pub open spec fn text_inline(t: Seq<char>) -> InlineView {
    InlineView::Text(TextRunView { text: t, style: None })
}

/// Adds a piece of text: a run merges into the paragraph's last run when both came from
/// runs with nothing between them; otherwise the piece becomes a new run.
pub open spec fn push_part(st: BuilderView, t: Seq<char>, from_run: bool) -> BuilderView {
    if from_run && st.can_merge && st.current.len() > 0 && st.current.last() is Text {
        let run = st.current.last()->Text_0;
        BuilderView {
            current: st.current.update(
                st.current.len() - 1,
                InlineView::Text(TextRunView { text: run.text + t, style: run.style }),
            ),
            ..st
        }
    } else {
        BuilderView { current: st.current.push(text_inline(t)), can_merge: from_run, ..st }
    }
}

/// Ends the paragraph being built, if it has any inline.
pub open spec fn flush(st: BuilderView) -> BuilderView {
    if st.current.len() == 0 {
        BuilderView { can_merge: false, pending: None, ..st }
    } else {
        BuilderView {
            current: Seq::empty(),
            blocks: st.blocks.push(
                BlockView::Paragraph(ParagraphView { inlines: st.current, style: None }),
            ),
            can_merge: false,
            pending: None,
        }
    }
}

pub open spec fn apply_part(st: BuilderView, part: PartView, from_run: bool) -> BuilderView {
    let s1 = if part.0.len() > 0 { push_part(st, part.0, from_run) } else { st };
    if part.1 { flush(s1) } else { s1 }
}

pub open spec fn apply_parts(st: BuilderView, ps: Seq<PartView>, from_run: bool) -> BuilderView
    decreases ps.len(),
{
    if ps.len() == 0 {
        st
    } else {
        apply_parts(apply_part(st, ps[0], from_run), ps.drop_first(), from_run)
    }
}

pub open spec fn push_text(st: BuilderView, t: Seq<char>, from_run: bool) -> BuilderView {
    apply_parts(st, text_parts(t), from_run)
}

/// The inline a ruby annotation replaces, when the skipped segment carries one and a ruby
/// base is waiting.
pub open spec fn ruby_target(st: BuilderView, m: SkippedModel) -> bool {
    &&& m.context.len() > 0
    &&& m.context.last() == DOCUMENT_TEXT_RUBY_TEXT_SELECTOR
    &&& st.pending is Some
    &&& 0 <= st.pending->0 < st.current.len()
    &&& st.current[st.pending->0] is Text
}

pub open spec fn ruby_of(base: Seq<char>, m: SkippedModel) -> RubyView {
    RubyView {
        base_text: base,
        annotation_text: m.text,
        annotation_selector: DOCUMENT_TEXT_RUBY_TEXT_SELECTOR,
        annotation_source: ObjectView { tag: Some(DOCUMENT_TEXT_INLINE_START_TAG), payload: m.raw_bytes },
    }
}

/// A skipped segment either turns the waiting ruby base into a ruby, or ends merging.
pub open spec fn push_skipped(st: BuilderView, m: SkippedModel) -> BuilderView {
    if ruby_target(st, m) {
        let k = st.pending->0;
        let base = st.current[k]->Text_0.text;
        BuilderView {
            current: st.current.update(k, InlineView::Ruby(ruby_of(base, m))),
            can_merge: false,
            pending: None,
            ..st
        }
    } else {
        BuilderView { can_merge: false, pending: None, ..st }
    }
}

/// A ruby reading turns the waiting ruby base into a ruby: when a skipped segment whose context
/// ends in the ruby-text selector 0x0082 meets a waiting base run `b` at `k`, the inline at `k`
/// becomes a ruby with base text `b` and annotation text the segment's text; every other
/// inline and every finished block stay as they were, and no base is left waiting.
pub proof fn lemma_ruby_reading_annotates_base(st: BuilderView, m: SkippedModel, k: int)
    requires
        m.context.len() > 0,
        m.context.last() == 0x0082u16,
        st.pending == Some(k),
        0 <= k < st.current.len(),
        st.current[k] is Text,
    ensures
        ({
            let s2 = builder_step(st, ElementModel::SkippedInlineText(m));
            &&& s2.current.len() == st.current.len()
            &&& s2.current[k] matches InlineView::Ruby(r) && r.base_text
                == st.current[k]->Text_0.text && r.annotation_text == m.text
            &&& forall|j: int| 0 <= j < st.current.len() && j != k ==> s2.current[j] == st.current[j]
            &&& s2.blocks == st.blocks
            &&& s2.pending is None
        }),
{
}

/// One element applied to the builder.
pub open spec fn builder_step(st: BuilderView, e: ElementModel) -> BuilderView {
    match e {
        ElementModel::TextRun(t) => push_text(BuilderView { pending: None, ..st }, t, true),
        ElementModel::InlineText(m) => {
            let s1 = push_text(BuilderView { pending: None, ..st }, m.text, false);
            if m.selector == DOCUMENT_TEXT_RUBY_BASE_SELECTOR && s1.blocks.len() == st.blocks.len()
                && s1.current.len() == st.current.len() + 1 {
                BuilderView { pending: Some(st.current.len() as int), ..s1 }
            } else {
                s1
            }
        },
        ElementModel::SkippedInlineText(m) => push_skipped(st, m),
        ElementModel::ControlBoundary(_) => BuilderView { can_merge: false, ..st },
    }
}

/// The builder after the elements, in order.
pub open spec fn builder_after(els: Seq<ElementModel>) -> BuilderView
    decreases els.len(),
{
    if els.len() == 0 {
        empty_builder()
    } else {
        builder_step(builder_after(els.drop_last()), els.last())
    }
}

/// The blocks built from a DocumentText element sequence.
pub open spec fn built_blocks(els: Seq<ElementModel>) -> Seq<BlockView> {
    flush(builder_after(els)).blocks
}

pub(crate) struct DocumentTextModelBuilder {
    pub(crate) current_inlines: Vec<Inline>,
    pub(crate) blocks: Vec<Block>,
    pub(crate) can_merge_current_text_run: bool,
    pub(crate) pending_ruby_base_inline_index: Option<usize>,
}

impl View for DocumentTextModelBuilder {
    type V = BuilderView;

    closed spec fn view(&self) -> BuilderView {
        BuilderView {
            current: inline_views(self.current_inlines@),
            blocks: block_views(self.blocks@),
            can_merge: self.can_merge_current_text_run,
            pending: match self.pending_ruby_base_inline_index {
                Some(k) => Some(k as int),
                None => None,
            },
        }
    }
}

impl DocumentTextModelBuilder {
    pub(crate) fn new() -> (r: Self)
        ensures
            r@ == empty_builder(),
    {
        let r = DocumentTextModelBuilder {
            current_inlines: Vec::new(),
            blocks: Vec::new(),
            can_merge_current_text_run: false,
            pending_ruby_base_inline_index: None,
        };
        assert(r@.current =~= Seq::<InlineView>::empty());
        assert(r@.blocks =~= Seq::<BlockView>::empty());
        r
    }

    pub(crate) fn push_text_run(&mut self, text: &str)
        ensures
            final(self)@ == builder_step(old(self)@, ElementModel::TextRun(text@)),
    {
        self.pending_ruby_base_inline_index = None;
        self.push_text(text, true);
    }

    pub(crate) fn push_inline_text(&mut self, segment: &InlineTextSegment)
        ensures
            final(self)@ == builder_step(old(self)@, ElementModel::InlineText(segment@)),
    {
        self.pending_ruby_base_inline_index = None;
        let previous_block_count = self.blocks.len();
        let previous_inline_count = self.current_inlines.len();
        self.push_text(segment.text(), false);
        if segment.selector() == DOCUMENT_TEXT_RUBY_BASE_SELECTOR && previous_block_count
            == self.blocks.len() && self.current_inlines.len() > previous_inline_count
            && self.current_inlines.len() - previous_inline_count == 1 {
            self.pending_ruby_base_inline_index = Some(previous_inline_count);
        }
    }

    pub(crate) fn push_skipped_inline(&mut self, segment: &SkippedInlineTextSegment)
        ensures
            final(self)@ == builder_step(old(self)@, ElementModel::SkippedInlineText(segment@)),
    {
        if self.promote_ruby_annotation(segment) {
            return;
        }
        self.pending_ruby_base_inline_index = None;
        self.can_merge_current_text_run = false;
    }

    pub(crate) fn push_control_boundary(&mut self, control: &DocumentTextControl)
        ensures
            final(self)@ == builder_step(old(self)@, ElementModel::ControlBoundary(control@)),
    {
        self.can_merge_current_text_run = false;
    }

    fn push_text(&mut self, text: &str, from_run: bool)
        ensures
            final(self)@ == push_text(old(self)@, text@, from_run),
    {
        let parts = source_text_parts(text);
        let ghost ps = part_views(parts@);
        let ghost start = self@;
        let mut j: usize = 0;
        assert(ps.skip(0) =~= ps);
        while j < parts.len()
            invariant
                ps == part_views(parts@),
                ps == text_parts(text@),
                j <= ps.len(),
                apply_parts(self@, ps.skip(j as int), from_run) == apply_parts(start, ps, from_run),
            decreases ps.len() - j,
        {
            let ghost before = self@;
            let part = &parts[j];
            if !part.text.as_str().is_empty() {
                self.push_text_part(part.text.as_str(), from_run);
            }
            if part.break_after {
                self.flush_paragraph();
            }
            assert(self@ == apply_part(before, ps[j as int], from_run));
            assert(ps.skip(j as int).drop_first() =~= ps.skip(j + 1));
            j = j + 1;
        }
        assert(ps.skip(j as int) =~= Seq::<PartView>::empty());
    }

    pub(crate) fn finish(self) -> (r: Vec<Block>)
        ensures
            block_views(r@) == flush(self@).blocks,
    {
        let mut this = self;
        this.flush_paragraph();
        this.blocks
    }

    pub(crate) fn flush_paragraph(&mut self)
        ensures
            final(self)@ == flush(old(self)@),
    {
        if self.current_inlines.len() == 0 {
            self.can_merge_current_text_run = false;
            self.pending_ruby_base_inline_index = None;
            return;
        }
        let ghost bs = block_views(self.blocks@);
        let ghost cur = inline_views(self.current_inlines@);
        let mut inlines: Vec<Inline> = Vec::new();
        std::mem::swap(&mut inlines, &mut self.current_inlines);
        self.blocks.push(Block::Paragraph(Paragraph::new(inlines, None)));
        self.can_merge_current_text_run = false;
        self.pending_ruby_base_inline_index = None;
        assert(block_views(self.blocks@) =~= bs.push(
            BlockView::Paragraph(ParagraphView { inlines: cur, style: None }),
        ));
        assert(inline_views(self.current_inlines@) =~= Seq::<InlineView>::empty());
    }

    fn push_text_part(&mut self, text: &str, from_run: bool)
        ensures
            final(self)@ == push_part(old(self)@, text@, from_run),
    {
        let ghost cur = inline_views(self.current_inlines@);
        if from_run && self.can_merge_current_text_run && self.current_inlines.len() > 0 {
            let last = self.current_inlines.pop();
            match last {
                Some(Inline::Text(run)) => {
                    let ghost before = run@;
                    let mut run = run;
                    run.push_text(text);
                    self.current_inlines.push(Inline::Text(run));
                    assert(inline_views(self.current_inlines@) =~= cur.update(
                        cur.len() - 1,
                        InlineView::Text(
                            TextRunView { text: before.text + text@, style: before.style },
                        ),
                    ));
                    return;
                },
                Some(other) => {
                    self.current_inlines.push(other);
                    assert(inline_views(self.current_inlines@) =~= cur);
                },
                None => {},
            }
        }
        self.current_inlines.push(Inline::Text(TextRun::new(text, None)));
        self.can_merge_current_text_run = from_run;
        assert(inline_views(self.current_inlines@) =~= cur.push(text_inline(text@)));
    }

    fn promote_ruby_annotation(&mut self, segment: &SkippedInlineTextSegment) -> (promoted: bool)
        ensures
            promoted == ruby_target(old(self)@, segment@),
            promoted ==> final(self)@ == push_skipped(old(self)@, segment@),
            !promoted ==> final(self)@.current == old(self)@.current && final(self)@.blocks
                == old(self)@.blocks,
    {
        let ghost cur = inline_views(self.current_inlines@);
        if segment.selector() != Some(DOCUMENT_TEXT_RUBY_TEXT_SELECTOR) {
            return false;
        }
        let index = match self.pending_ruby_base_inline_index {
            Some(k) => k,
            None => {
                return false;
            },
        };
        self.pending_ruby_base_inline_index = None;
        if index >= self.current_inlines.len() {
            return false;
        }
        let base_text = match &self.current_inlines[index] {
            Inline::Text(run) => run.text.clone(),
            _ => {
                return false;
            },
        };
        let annotation = RubyAnnotation {
            base_text,
            annotation_text: segment.text().to_owned(),
            annotation_selector: DOCUMENT_TEXT_RUBY_TEXT_SELECTOR,
            annotation_source: unknown_object_from_skipped_inline(segment),
        };
        self.current_inlines[index] = Inline::Ruby(annotation);
        self.can_merge_current_text_run = false;
        assert(inline_views(self.current_inlines@) =~= cur.update(
            index as int,
            InlineView::Ruby(ruby_of(cur[index as int]->Text_0.text, segment@)),
        ));
        true
    }
}


// ----------------------------------------------------------------------------------------
// What the builder keeps of the text.

/// The text a block shows as a line: a paragraph's inline texts, nothing for an unknown block.
pub open spec fn block_line(b: BlockView) -> Seq<char> {
    match b {
        BlockView::Paragraph(p) => inlines_text(p.inlines),
        BlockView::Unknown(_) => Seq::empty(),
    }
}

/// The blocks are paragraphs showing exactly `lines`, one each, in order.
pub open spec fn paragraphs_show(blocks: Seq<BlockView>, lines: Seq<Seq<char>>) -> bool {
    &&& blocks.len() == lines.len()
    &&& forall|i: int| 0 <= i < blocks.len() ==> (#[trigger] blocks[i]) is Paragraph
    &&& forall|i: int| 0 <= i < blocks.len() ==> block_line(#[trigger] blocks[i]) == lines[i]
}

/// The builder holds the text read so far: its blocks show the finished lines, the paragraph
/// being built shows the open line, and every inline shows some text.
pub open spec fn builder_holds(st: BuilderView, ls: LineSplit) -> bool {
    &&& paragraphs_show(st.blocks, ls.done)
    &&& inlines_text(st.current) == ls.open
    &&& forall|i: int| 0 <= i < st.current.len() ==> inline_text(#[trigger] st.current[i]).len() > 0
}

proof fn lemma_inlines_text_nonempty(s: Seq<InlineView>)
    requires
        s.len() > 0,
        forall|i: int| 0 <= i < s.len() ==> inline_text(#[trigger] s[i]).len() > 0,
    ensures
        inlines_text(s).len() > 0,
{
    assert(inline_text(s[s.len() - 1]).len() > 0);
}

proof fn lemma_inlines_text_update(s: Seq<InlineView>, k: int, x: InlineView)
    requires
        0 <= k < s.len(),
        inline_text(x) == inline_text(s[k]),
    ensures
        inlines_text(s.update(k, x)) == inlines_text(s),
    decreases s.len(),
{
    if k == s.len() - 1 {
        assert(s.update(k, x).drop_last() =~= s.drop_last());
    } else {
        lemma_inlines_text_update(s.drop_last(), k, x);
        assert(s.update(k, x).drop_last() =~= s.drop_last().update(k, x));
    }
}

proof fn lemma_push_part(st: BuilderView, ls: LineSplit, t: Seq<char>, from_run: bool)
    requires
        builder_holds(st, ls),
        t.len() > 0,
    ensures
        builder_holds(push_part(st, t, from_run), LineSplit { done: ls.done, open: ls.open + t }),
{
    let r = push_part(st, t, from_run);
    if from_run && st.can_merge && st.current.len() > 0 && st.current.last() is Text {
        let n = st.current.len() - 1;
        let run = st.current.last()->Text_0;
        assert(r.current.drop_last() =~= st.current.drop_last());
        assert(inlines_text(r.current) =~= inlines_text(st.current) + t);
        assert forall|i: int| 0 <= i < r.current.len() implies inline_text(
            #[trigger] r.current[i],
        ).len() > 0 by {
            if i != n {
                assert(r.current[i] == st.current[i]);
            }
        }
    } else {
        assert(r.current.drop_last() =~= st.current);
        assert forall|i: int| 0 <= i < r.current.len() implies inline_text(
            #[trigger] r.current[i],
        ).len() > 0 by {
            if i < st.current.len() {
                assert(r.current[i] == st.current[i]);
            }
        }
    }
}

proof fn lemma_flush(st: BuilderView, ls: LineSplit)
    requires
        builder_holds(st, ls),
    ensures
        builder_holds(flush(st), split_char(ls, '\n')),
        flush(st).blocks.len() == close_split(ls).len(),
        paragraphs_show(flush(st).blocks, close_split(ls)),
{
    if st.current.len() > 0 {
        lemma_inlines_text_nonempty(st.current);
        let r = flush(st);
        let nl = split_char(ls, '\n');
        assert(nl.done == ls.done.push(ls.open));
        assert forall|i: int| 0 <= i < r.blocks.len() implies block_line(#[trigger] r.blocks[i])
            == nl.done[i] by {
            if i < st.blocks.len() {
                assert(r.blocks[i] == st.blocks[i]);
            }
        }
        assert forall|i: int| 0 <= i < r.blocks.len() implies (#[trigger] r.blocks[i]) is Paragraph by {
            if i < st.blocks.len() {
                assert(r.blocks[i] == st.blocks[i]);
            }
        }
        assert(inlines_text(r.current) =~= Seq::<char>::empty());
    }
}

proof fn lemma_apply_part(st: BuilderView, ls: LineSplit, part: PartView, from_run: bool)
    requires
        builder_holds(st, ls),
        has_no_break(part.0),
    ensures
        builder_holds(
            apply_part(st, part, from_run),
            if part.1 {
                split_char(LineSplit { done: ls.done, open: ls.open + part.0 }, '\n')
            } else {
                LineSplit { done: ls.done, open: ls.open + part.0 }
            },
        ),
{
    let mid = LineSplit { done: ls.done, open: ls.open + part.0 };
    if part.0.len() > 0 {
        lemma_push_part(st, ls, part.0, from_run);
    } else {
        assert(ls.open + part.0 =~= ls.open);
    }
    let s1 = if part.0.len() > 0 { push_part(st, part.0, from_run) } else { st };
    if part.1 {
        lemma_flush(s1, mid);
    }
}

/// Applying the pieces of `s` from `i` (with `cur` read before) reads `cur` and the rest of `s`.
proof fn lemma_apply_parts_from(
    st: BuilderView,
    ls: LineSplit,
    s: Seq<char>,
    i: int,
    cur: Seq<char>,
    from_run: bool,
)
    requires
        builder_holds(st, ls),
        has_no_break(cur),
        0 <= i <= s.len(),
    ensures
        builder_holds(
            apply_parts(st, parts_from(s, i, cur), from_run),
            split_from(ls, cur + s.skip(i)),
        ),
    decreases s.len() - i,
{
    lemma_split_plain(ls, cur);
    let mid = LineSplit { done: ls.done, open: ls.open + cur };
    let ps = parts_from(s, i, cur);
    if i >= s.len() {
        assert(ps.drop_first() =~= Seq::<PartView>::empty());
        lemma_apply_part(st, ls, (cur, false), from_run);
        assert(cur + s.skip(i) =~= cur);
        let st1 = apply_part(st, (cur, false), from_run);
        assert(apply_parts(st1, Seq::<PartView>::empty(), from_run) == st1);
        assert(apply_parts(st, ps, from_run) == st1);
    } else if s[i] == '\r' || s[i] == '\n' {
        let next = if s[i] == '\r' && i + 1 < s.len() && s[i + 1] == '\n' { i + 2 } else { i + 1 };
        let rest = parts_from(s, next, Seq::empty());
        assert(ps == seq![(cur, true)] + rest);
        assert(ps.drop_first() =~= rest);
        lemma_apply_part(st, ls, (cur, true), from_run);
        let st1 = apply_part(st, (cur, true), from_run);
        assert(apply_parts(st, ps, from_run) == apply_parts(st1, rest, from_run));
        let ls1 = split_char(mid, '\n');
        assert(ls1.open.len() == 0);
        lemma_apply_parts_from(st1, ls1, s, next, Seq::empty(), from_run);
        assert(Seq::<char>::empty() + s.skip(next) =~= s.skip(next));
        // cur + s.skip(i) == cur + [s[i]] + s.skip(i + 1)
        assert(cur + s.skip(i) =~= cur.push(s[i]) + s.skip(i + 1));
        lemma_split_concat(ls, cur.push(s[i]), s.skip(i + 1));
        lemma_split_concat(ls, cur, seq![s[i]]);
        assert(cur + seq![s[i]] =~= cur.push(s[i]));
        lemma_split_one(mid, s[i]);
        assert(split_char(mid, s[i]) == ls1);
        if next == i + 2 {
            assert(s.skip(i + 1) =~= seq![s[i + 1]] + s.skip(i + 2));
            lemma_split_concat(ls1, seq![s[i + 1]], s.skip(i + 2));
            lemma_split_one(ls1, s[i + 1]);
            assert(split_char(ls1, s[i + 1]) == ls1);
        }
        assert(split_from(ls, cur.push(s[i])) == ls1);
        assert(split_from(ls, cur + s.skip(i)) == split_from(ls1, s.skip(next)));
    } else {
        assert(ps == parts_from(s, i + 1, cur.push(s[i])));
        assert forall|k: int| 0 <= k < cur.push(s[i]).len() implies !super::lines::is_line_break(
            #[trigger] cur.push(s[i])[k],
        ) by {
            if k < cur.len() {
                assert(cur.push(s[i])[k] == cur[k]);
            }
        }
        lemma_apply_parts_from(st, ls, s, i + 1, cur.push(s[i]), from_run);
        assert(cur.push(s[i]) + s.skip(i + 1) =~= cur + s.skip(i));
    }
}

proof fn lemma_push_text(st: BuilderView, ls: LineSplit, t: Seq<char>, from_run: bool)
    requires
        builder_holds(st, ls),
    ensures
        builder_holds(push_text(st, t, from_run), split_from(ls, t)),
{
    lemma_apply_parts_from(st, ls, t, 0, Seq::empty(), from_run);
    assert(Seq::<char>::empty() + t.skip(0) =~= t);
}

proof fn lemma_builder_step(st: BuilderView, ls: LineSplit, e: ElementModel)
    requires
        builder_holds(st, ls),
    ensures
        builder_holds(builder_step(st, e), split_from(ls, element_text(e))),
{
    match e {
        ElementModel::TextRun(t) => {
            lemma_push_text(BuilderView { pending: None, ..st }, ls, t, true);
        },
        ElementModel::InlineText(m) => {
            lemma_push_text(BuilderView { pending: None, ..st }, ls, m.text, false);
        },
        ElementModel::SkippedInlineText(m) => {
            assert(split_from(ls, element_text(e)) == ls);
            if ruby_target(st, m) {
                let k = st.pending->0;
                let base = st.current[k]->Text_0.text;
                let x = InlineView::Ruby(ruby_of(base, m));
                lemma_inlines_text_update(st.current, k, x);
                let r = push_skipped(st, m);
                assert forall|i: int| 0 <= i < r.current.len() implies inline_text(
                    #[trigger] r.current[i],
                ).len() > 0 by {
                    if i != k {
                        assert(r.current[i] == st.current[i]);
                    } else {
                        assert(inline_text(st.current[k]).len() > 0);
                    }
                }
            }
        },
        ElementModel::ControlBoundary(_) => {
            assert(split_from(ls, element_text(e)) == ls);
        },
    }
}

proof fn lemma_builder_after(els: Seq<ElementModel>)
    ensures
        builder_holds(builder_after(els), split_from(no_split(), elements_text(els))),
    decreases els.len(),
{
    if els.len() == 0 {
        assert(paragraphs_show(Seq::empty(), Seq::empty()));
        assert(inlines_text(Seq::<InlineView>::empty()) =~= Seq::<char>::empty());
    } else {
        lemma_builder_after(els.drop_last());
        let ls = split_from(no_split(), elements_text(els.drop_last()));
        lemma_builder_step(builder_after(els.drop_last()), ls, els.last());
        lemma_split_concat(no_split(), elements_text(els.drop_last()), element_text(els.last()));
    }
}

/// The paragraphs built from DocumentText elements show exactly the non-empty lines of the
/// elements' text, in order: line breaks end paragraphs, blank lines leave none, rubies keep
/// their base text in the line, and no text is lost or added.
pub proof fn lemma_built_blocks_show_text_lines(els: Seq<ElementModel>)
    ensures
        paragraphs_show(built_blocks(els), text_lines(elements_text(els))),
{
    lemma_builder_after(els);
    lemma_flush(builder_after(els), split_from(no_split(), elements_text(els)));
}

fn unknown_object_from_skipped_inline(segment: &SkippedInlineTextSegment) -> (r: UnknownObject)
    ensures
        r@ == (ObjectView { tag: Some(DOCUMENT_TEXT_INLINE_START_TAG), payload: segment@.raw_bytes }),
{
    UnknownObject::new(
        UnknownRecordKind::new(Some(DOCUMENT_TEXT_INLINE_START_TAG)),
        vstd::slice::slice_to_vec(segment.raw_bytes()),
    )
}

} // verus!
