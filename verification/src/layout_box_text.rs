//! The /LayoutBoxText stream: text of layout boxes.
use vstd::prelude::*;

use crate::container::{stream_read, is_stream_error, read_cfb_stream};
use crate::document_text::scan::{lemma_marker_from, marker_from, spec_decode_prologue_units};
use crate::document_text::{
    bytes_at, decode_prologue_units, extract_units_text, first_text_marker,
    spec_extract_document_text, ssmg_magic, starts_with_magic_exec,
};
use crate::error::Error;
use crate::header_text::is_textv_at;
use crate::strings::{join_strings, join_with, push_string, strings_view};
use crate::text::{chars_of, extend_chars, string_of};
use crate::units::{be_bytes, be_units, to_be_units};

verus! {

/// Path of the layout box stream.
pub const LAYOUT_BOX_TEXT_PATH: &'static str = "/LayoutBoxText";

/// Units in the SsmgV.01 header (the block count is its last unit).
pub const LAYOUT_BOX_HEADER_WORDS: usize = 10;

/// Units per block.
pub const LAYOUT_BOX_BLOCK_PITCH_WORDS: usize = 128;

/// Longest span of a block: the pitch less the segment name and the span head.
pub const LAYOUT_BOX_MAX_SPAN_WORDS: usize = 122;

/// Raw text of `u[start..end]`, empty when nothing is decoded.
pub open spec fn prologue_text(u: Seq<u16>, start: int, end: int) -> Seq<char> {
    match spec_decode_prologue_units(u, start, end) {
        Some((t, _)) => t,
        None => Seq::empty(),
    }
}

/// Text of one block span: raw text before the first marker, then the plain text from that
/// marker on; all raw when there is no marker.
pub open spec fn spec_layout_box_span(u: Seq<u16>, start: int, end: int) -> Seq<char> {
    let m = marker_from(u, start, end);
    if m < end {
        prologue_text(u, start, m) + spec_extract_document_text(be_bytes(u.subrange(m, end)))
    } else {
        prologue_text(u, start, end)
    }
}

/// Blocks `k..count`, appended to `acc`: each must start with "TextV.01" at
/// `10 + 128 * k` and declare a span of at most 122 units.
pub open spec fn layout_blocks(u: Seq<u16>, k: int, count: int, acc: Seq<Seq<char>>) -> Option<
    Seq<Seq<char>>,
>
    decreases count - k,
{
    if k >= count {
        Some(acc)
    } else {
        let b = 10 + 128 * k;
        if !is_textv_at(u, b) {
            None
        } else {
            let span_start = b + 6;
            let span_len = u[span_start - 1] as int;
            if span_len > 122 {
                None
            } else {
                layout_blocks(
                    u,
                    k + 1,
                    count,
                    acc.push(spec_layout_box_span(u, span_start, span_start + span_len)),
                )
            }
        }
    }
}

/// Blocks of a /LayoutBoxText stream: `None` unless it starts with "SsmgV.01", holds ten
/// units, and holds the whole declared block area (`10 + 128 * count` units, `count = u[9]`).
pub open spec fn spec_parse_layout_box_text(data: Seq<u8>) -> Option<Seq<Seq<char>>> {
    if !bytes_at(data, 0, ssmg_magic()) || data.len() < 20 {
        None
    } else {
        let u = be_units(data);
        let count = u[9] as int;
        if count == 0 {
            Some(Seq::empty())
        } else if u.len() < 10 + 128 * count {
            None
        } else {
            layout_blocks(u, 0, count, Seq::empty())
        }
    }
}

/// Restored layout box text, one entry per block.
#[derive(Debug, Clone, PartialEq, Eq)]
pub struct LayoutBoxText {
    blocks: Vec<String>,
}

impl View for LayoutBoxText {
    type V = Seq<Seq<char>>;

    closed spec fn view(&self) -> Seq<Seq<char>> {
        strings_view(self.blocks@)
    }
}

impl Default for LayoutBoxText {
    fn default() -> (r: Self)
        ensures
            r@ == Seq::<Seq<char>>::empty(),
    {
        let r = LayoutBoxText { blocks: Vec::new() };
        assert(r@ =~= Seq::<Seq<char>>::empty());
        r
    }
}

impl LayoutBoxText {
    /// The text of each block.
    pub fn blocks(&self) -> (r: &[String])
        ensures
            strings_view(r@) == self@,
    {
        self.blocks.as_slice()
    }

    /// The blocks joined with '\n'.
    pub fn text(&self) -> (r: String)
        ensures
            r@ == join_with(self@, seq!['\n']),
    {
        let r = join_strings(self.blocks.as_slice(), "\n");
        proof {
            reveal_strlit("\n");
        }
        assert("\n"@ =~= seq!['\n']);
        r
    }
}

/// Text of the block span `units[start..end]` (see `spec_layout_box_span`).
pub fn decode_layout_box_span(units: &[u16], start: usize, end: usize) -> (r: String)
    requires
        start <= end <= units@.len(),
    ensures
        r@ == spec_layout_box_span(units@, start as int, end as int),
{
    proof {
        lemma_marker_from(units@, start as int, end as int);
    }
    match first_text_marker(units, start, end) {
        Some(m) => {
            let mut out: Vec<char> = match decode_prologue_units(units, start, m) {
                Some((t, _)) => chars_of(t.as_str()),
                None => Vec::new(),
            };
            let rest = extract_units_text(units, m, end);
            extend_chars(&mut out, rest.as_slice());
            string_of(out.as_slice())
        },
        None => match decode_prologue_units(units, start, end) {
            Some((t, _)) => t,
            None => String::new(),
        },
    }
}

/// Parses a /LayoutBoxText stream (see `spec_parse_layout_box_text`).
pub fn parse_layout_box_text(data: &[u8]) -> (r: Option<LayoutBoxText>)
    ensures
        match spec_parse_layout_box_text(data@) {
            None => r is None,
            Some(blocks) => r matches Some(b) && b@ == blocks,
        },
{
    if !starts_with_magic_exec(data) || data.len() < 20 {
        return None;
    }
    let units = to_be_units(data);
    let count = units[9] as usize;
    if count == 0 {
        return Some(LayoutBoxText::default());
    }
    if units.len() < 10 + 128 * count {
        return None;
    }
    let ghost u = units@;
    let n = units.len();
    let mut blocks: Vec<String> = Vec::new();
    assert(strings_view(blocks@) =~= Seq::<Seq<char>>::empty());
    assert(spec_parse_layout_box_text(data@) == layout_blocks(u, 0, count as int, Seq::empty()));
    let mut k: usize = 0;
    while k < count
        invariant
            spec_parse_layout_box_text(data@) == layout_blocks(u, 0, count as int, Seq::empty()),
            n == u.len(),
            units@ == u,
            u.len() >= 10 + 128 * count,
            k <= count,
            layout_blocks(u, k as int, count as int, strings_view(blocks@)) == layout_blocks(
                u,
                0,
                count as int,
                Seq::empty(),
            ),
        decreases count - k,
    {
        let b = 10 + 128 * k;
        if !(units[b] == 0x5465 && units[b + 1] == 0x7874 && units[b + 2] == 0x562e && units[b + 3]
            == 0x3031) {
            return None;
        }
        let span_start = b + 6;
        let span_len = units[span_start - 1] as usize;
        if span_len > LAYOUT_BOX_MAX_SPAN_WORDS {
            return None;
        }
        let block = decode_layout_box_span(units.as_slice(), span_start, span_start + span_len);
        push_string(&mut blocks, block);
        k = k + 1;
    }
    Some(LayoutBoxText { blocks })
}

/// The layout box text of a compound file: `Ok(None)` when /LayoutBoxText is absent or does not
/// have the expected layout; when it cannot be read, the error that reading it gave
/// (`Error::InvalidData` naming the stream).
pub fn read_layout_box_text(data: &[u8]) -> (r: Result<Option<LayoutBoxText>, Error>)
    ensures
        match stream_read(data@, LAYOUT_BOX_TEXT_PATH@) {
            Ok(stream) => r matches Ok(h) && match spec_parse_layout_box_text(stream) {
                None => h is None,
                Some(blocks) => h matches Some(t) && t@ == blocks,
            },
            Err(true) => r == Ok::<Option<LayoutBoxText>, Error>(None),
            Err(false) => r matches Err(e) && is_stream_error(e, false, LAYOUT_BOX_TEXT_PATH@),
        },
{
    match read_cfb_stream(data, LAYOUT_BOX_TEXT_PATH) {
        Ok(stream) => Ok(parse_layout_box_text(stream.as_slice())),
        Err(Error::NotFound(_)) => Ok(None),
        Err(error) => Err(error),
    }
}

} // verus!
