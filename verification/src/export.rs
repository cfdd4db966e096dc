//! Plain-text export of a document model.
use vstd::prelude::*;

use crate::document_text::{trim_exposed, trim_trailing_exposed_controls};
use crate::model::blocks::{Inline, block_views, inline_views, inlines_text};
use crate::model::{Block, Document, DocumentView, blocks_text, spec_plain_text};
use crate::text::{push_str_chars, string_of};

verus! {

/// The header and footer text followed by a blank line; nothing without one.
pub open spec fn header_prefix(h: Option<Seq<char>>) -> Seq<char> {
    match h {
        Some(t) => t + seq!['\n', '\n'],
        None => Seq::empty(),
    }
}

/// The exported body: each sheet's section for a multi-sheet document, else each
/// paragraph's visible text on its own line.
pub open spec fn export_body(d: DocumentView) -> Seq<char> {
    if d.sheets.len() > 1 {
        spec_plain_text(d)
    } else {
        blocks_text(d.blocks)
    }
}

/// The exported text: the header prefix, then the body, trailing exposed controls dropped.
pub open spec fn spec_to_plain_text(d: DocumentView) -> Seq<char> {
    trim_exposed(header_prefix(d.header_text) + export_body(d))
}

/// The document as plain text, header and footer text first (see `spec_to_plain_text`).
pub fn to_plain_text(document: &Document) -> (r: String)
    ensures
        r@ == spec_to_plain_text(document@),
{
    let mut output: Vec<char> = Vec::new();
    match document.header_text() {
        Some(header) => {
            push_str_chars(&mut output, header);
            output.push('\n');
            output.push('\n');
        },
        None => {},
    }
    let ghost head = output@;
    assert(head =~= header_prefix(document@.header_text));
    if document.sheets().len() > 1 {
        let body = document.plain_text();
        push_str_chars(&mut output, body.as_str());
    } else {
        let blocks = document.blocks();
        let ghost bs = block_views(blocks@);
        let mut i: usize = 0;
        while i < blocks.len()
            invariant
                bs == block_views(blocks@),
                bs == document@.blocks,
                i <= bs.len(),
                output@ == head + blocks_text(bs.take(i as int)),
            decreases bs.len() - i,
        {
            let ghost before = output@;
            match &blocks[i] {
                Block::Paragraph(paragraph) => {
                    let inlines = paragraph.inlines();
                    let ghost v = inline_views(inlines@);
                    let mut j: usize = 0;
                    while j < inlines.len()
                        invariant
                            v == inline_views(inlines@),
                            j <= v.len(),
                            output@ == before + inlines_text(v.take(j as int)),
                        decreases v.len() - j,
                    {
                        push_inline_visible_text(&mut output, &inlines[j]);
                        assert(v.take(j + 1).drop_last() =~= v.take(j as int));
                        j = j + 1;
                    }
                    assert(v.take(j as int) =~= v);
                    output.push('\n');
                },
                Block::Unknown(_) => {},
            }
            assert(bs.take(i + 1).drop_last() =~= bs.take(i as int));
            i = i + 1;
        }
        assert(bs.take(i as int) =~= bs);
    }
    let text = string_of(output.as_slice());
    trim_trailing_exposed_controls(text.as_str()).to_owned()
}

fn push_inline_visible_text(output: &mut Vec<char>, inline: &Inline)
    ensures
        final(output)@ == old(output)@ + crate::model::blocks::inline_text(inline@),
{
    match inline {
        Inline::Text(text) => push_str_chars(output, text.text()),
        Inline::Ruby(ruby) => push_str_chars(output, ruby.base_text()),
        Inline::Unknown(_) => {
            assert(old(output)@ + Seq::<char>::empty() =~= old(output)@);
        },
    }
}

/// Keeping header and footer text only adds it, and a blank line, before the export of the
/// same document without it.
pub proof fn lemma_header_text_prepended(d: DocumentView, h: Seq<char>)
    requires
        d.header_text is None,
    ensures
        spec_to_plain_text(DocumentView { header_text: Some(h), ..d }) == trim_exposed(
            h + seq!['\n', '\n'] + export_body(d),
        ),
        spec_to_plain_text(d) == trim_exposed(export_body(d)),
{
    assert(Seq::<char>::empty() + export_body(d) =~= export_body(d));
}

/// Without header text, the export is the document's plain text with trailing exposed
/// controls trimmed; the one difference is that the export leaves out the footnotes of a
/// document's only sheet.
pub proof fn lemma_export_is_trimmed_plain_text(d: DocumentView)
    requires
        d.header_text is None,
        !(d.sheets.len() == 1 && d.sheets[0].footnote_text is Some),
    ensures
        spec_to_plain_text(d) == trim_exposed(spec_plain_text(d)),
{
    assert(Seq::<char>::empty() + export_body(d) =~= export_body(d));
    if d.sheets.len() <= 1 {
        let t = crate::model::spec_document_plain_text(d.blocks);
        assert(spec_plain_text(d) =~= t);
        crate::document_text::lemma_trim_exposed_idempotent(blocks_text(d.blocks));
    }
}

} // verus!
