//! Unit-level recognisers of the DocumentText stream: control classes, record footers,
//! inline text selectors, inline segment bodies and raw (marker-less) text.
use vstd::prelude::*;

use crate::text::char_from_u32;

verus! {

/// Marks the start of a text run.
pub const TEXT_RUN_MARKER: u16 = 0x001f;

/// Opens an inline text segment.
pub const INLINE_TEXT_START: u16 = 0x001d;

/// Closes an inline text segment.
pub const INLINE_TEXT_END: u16 = 0x001e;

/// Opens a record.
pub const RECORD_START_MARKER: u16 = 0x001c;

/// Separates table-cell records; reading continues across it.
pub const TEXT_ROW_DELIMITER: u16 = 0x000e;

/// Page break (form feed); reading continues across it.
pub const DOCUMENT_TEXT_PAGE_BREAK_CONTROL: u16 = 0x000c;

/// Inline space / formatting boundary inside a run; reading continues across it.
pub const DOCUMENT_TEXT_INLINE_SPACE_CONTROL: u16 = 0x0010;

/// Longest skipped inline segment, in units after its opening marker.
pub const SKIPPED_INLINE_MAX_UNITS: usize = 256;

/// Record class: inline context.
pub const RECORD_CLASS_INLINE_CONTEXT: u16 = 0x0000;

/// Record class: paragraph line.
pub const RECORD_CLASS_PARAGRAPH_LINE: u16 = 0x0010;

/// Record class: table section transition.
pub const RECORD_CLASS_TABLE_SECTION_TRANSITION: u16 = 0x0020;

/// Record class: table cell.
pub const RECORD_CLASS_TABLE_CELL: u16 = 0x0030;

/// C0 controls other than tab, LF and CR, and the C1 range, end a text run.
pub open spec fn spec_is_control_boundary(code: u16) -> bool {
    (code < 0x20 && code != 0x09 && code != 0x0a && code != 0x0d) || (0x7f <= code && code <= 0x9f)
}

/// Surrogates and U+FFFF are never read as text.
pub open spec fn spec_is_invalid_scalar(code: u16) -> bool {
    (0xd800 <= code && code <= 0xdfff) || code == 0xffff
}

/// The three markers that begin structured content.
pub open spec fn is_text_marker(code: u16) -> bool {
    code == RECORD_START_MARKER || code == INLINE_TEXT_START || code == TEXT_RUN_MARKER
}

/// Controls across which a text run keeps reading.
pub open spec fn continues_reading(code: u16) -> bool {
    code == TEXT_ROW_DELIMITER || code == DOCUMENT_TEXT_PAGE_BREAK_CONTROL || code
        == DOCUMENT_TEXT_INLINE_SPACE_CONTROL
}

/// The character of a unit that is not a surrogate.
pub open spec fn unit_char(code: u16) -> char {
    code as char
}

pub fn is_control_boundary(code: u16) -> (r: bool)
    ensures
        r == spec_is_control_boundary(code),
{
    (code < 0x20 && code != 0x09 && code != 0x0a && code != 0x0d) || (0x7f <= code && code <= 0x9f)
}

pub fn is_invalid_scalar(code: u16) -> (r: bool)
    ensures
        r == spec_is_invalid_scalar(code),
{
    (0xd800 <= code && code <= 0xdfff) || code == 0xffff
}

/// The character of a unit that is not a surrogate.
pub fn unit_to_char(code: u16) -> (c: char)
    requires
        !(0xd800 <= code && code <= 0xdfff),
    ensures
        c == unit_char(code),
{
    let r = char_from_u32(code as u32);
    match r {
        Some(c) => c,
        None => {
            assert(false);
            ' '
        },
    }
}

/// Characters of the units that are neither control boundaries nor invalid scalars.
pub open spec fn filtered_text(s: Seq<u16>) -> Seq<char>
    decreases s.len(),
{
    if s.len() == 0 {
        Seq::empty()
    } else {
        let rest = filtered_text(s.drop_last());
        let c = s.last();
        if !spec_is_control_boundary(c) && !spec_is_invalid_scalar(c) {
            rest.push(unit_char(c))
        } else {
            rest
        }
    }
}

/// Characters of the units that are not invalid scalars (controls kept).
pub open spec fn valid_text(s: Seq<u16>) -> Seq<char>
    decreases s.len(),
{
    if s.len() == 0 {
        Seq::empty()
    } else {
        let rest = valid_text(s.drop_last());
        let c = s.last();
        if !spec_is_invalid_scalar(c) {
            rest.push(unit_char(c))
        } else {
            rest
        }
    }
}

/// Appends the characters of `units[from..to]` that are read as text: every unit that is not an
/// invalid scalar, and, unless `keep_controls`, not a control boundary either.
pub fn push_units_text(out: &mut Vec<char>, units: &[u16], from: usize, to: usize, keep_controls: bool)
    requires
        from <= to <= units@.len(),
    ensures
        final(out)@ == old(out)@ + (if keep_controls {
            valid_text(units@.subrange(from as int, to as int))
        } else {
            filtered_text(units@.subrange(from as int, to as int))
        }),
{
    let mut k = from;
    while k < to
        invariant
            from <= k <= to <= units@.len(),
            out@ == old(out)@ + (if keep_controls {
                valid_text(units@.subrange(from as int, k as int))
            } else {
                filtered_text(units@.subrange(from as int, k as int))
            }),
        decreases to - k,
    {
        let code = units[k];
        assert(units@.subrange(from as int, k + 1).drop_last() =~= units@.subrange(
            from as int,
            k as int,
        ));
        if !is_invalid_scalar(code) && (keep_controls || !is_control_boundary(code)) {
            out.push(unit_to_char(code));
        }
        k = k + 1;
    }
}

/// First index in `[k, end)` holding one of the three text markers, or `end`.
pub open spec fn marker_from(u: Seq<u16>, k: int, end: int) -> int
    decreases end - k,
{
    if k >= end {
        end
    } else if is_text_marker(u[k]) {
        k
    } else {
        marker_from(u, k + 1, end)
    }
}

/// The first text marker (0x001c, 0x001d or 0x001f) in `[start, end)`.
pub open spec fn spec_first_text_marker(u: Seq<u16>, start: int, end: int) -> Option<usize> {
    let m = marker_from(u, start, end);
    if m < end {
        Some(m as usize)
    } else {
        None
    }
}

pub proof fn lemma_marker_from(u: Seq<u16>, k: int, end: int)
    requires
        k <= end,
    ensures
        k <= marker_from(u, k, end) <= end,
        marker_from(u, k, end) < end ==> is_text_marker(u[marker_from(u, k, end)]),
        forall|j: int| k <= j < marker_from(u, k, end) ==> !is_text_marker(#[trigger] u[j]),
    decreases end - k,
{
    if k < end && !is_text_marker(u[k]) {
        lemma_marker_from(u, k + 1, end);
    }
}

/// The index of the first text marker (0x001c, 0x001d or 0x001f) in `units[start..end]`.
pub fn first_text_marker(units: &[u16], start: usize, end: usize) -> (r: Option<usize>)
    requires
        start <= end <= units@.len(),
    ensures
        r == spec_first_text_marker(units@, start as int, end as int),
{
    let mut k = start;
    while k < end
        invariant
            start <= k <= end <= units@.len(),
            marker_from(units@, k as int, end as int) == marker_from(
                units@,
                start as int,
                end as int,
            ),
        decreases end - k,
    {
        let c = units[k];
        if c == RECORD_START_MARKER || c == INLINE_TEXT_START || c == TEXT_RUN_MARKER {
            return Some(k);
        }
        k = k + 1;
    }
    None
}

/// First index in `[k, end)` holding a control boundary other than 0x0000, or `end`.
pub open spec fn prologue_boundary(u: Seq<u16>, k: int, end: int) -> int
    decreases end - k,
{
    if k >= end {
        end
    } else if u[k] != 0 && spec_is_control_boundary(u[k]) {
        k
    } else {
        prologue_boundary(u, k + 1, end)
    }
}

pub proof fn lemma_prologue_boundary(u: Seq<u16>, k: int, end: int)
    requires
        k <= end,
    ensures
        k <= prologue_boundary(u, k, end) <= end,
    decreases end - k,
{
    if k < end && !(u[k] != 0 && spec_is_control_boundary(u[k])) {
        lemma_prologue_boundary(u, k + 1, end);
    }
}

/// Raw decoding of units that precede any marker: 0x0000 padding and invalid scalars are
/// skipped, tab/LF/CR are kept, and reading stops at the first other control boundary.
/// `None` when nothing is decoded; otherwise the text and the index where reading stopped.
pub open spec fn spec_decode_prologue_units(u: Seq<u16>, start: int, end: int) -> Option<(Seq<char>, usize)> {
    let b = prologue_boundary(u, start, end);
    let t = filtered_text(u.subrange(start, b));
    if t.len() == 0 {
        None
    } else {
        Some((t, b as usize))
    }
}

/// Decodes `units[start..end]` as raw prologue text (see `spec_decode_prologue_units`).
pub fn decode_prologue_chars(units: &[u16], start: usize, end: usize) -> (r: Option<(Vec<char>, usize)>)
    requires
        start <= end <= units@.len(),
    ensures
        match spec_decode_prologue_units(units@, start as int, end as int) {
            None => r is None,
            Some((t, b)) => r matches Some((rt, rb)) && rt@ == t && rb == b,
        },
{
    proof {
        lemma_prologue_boundary(units@, start as int, end as int);
    }
    let mut k = start;
    while k < end && !(units[k] != 0 && is_control_boundary(units[k]))
        invariant
            start <= k <= end <= units@.len(),
            prologue_boundary(units@, k as int, end as int) == prologue_boundary(
                units@,
                start as int,
                end as int,
            ),
        decreases end - k,
    {
        k = k + 1;
    }
    let mut text: Vec<char> = Vec::new();
    push_units_text(&mut text, units, start, k, false);
    assert(text@ =~= filtered_text(units@.subrange(start as int, k as int)));
    if text.len() == 0 {
        None
    } else {
        Some((text, k))
    }
}

/// The selector of a display inline segment opened at `i`:
/// `[0x001c, 0x0001, 0x0007, 0x0000, 0x0000, sel]` right before, with `sel` one of 0x0001,
/// 0x0003, 0x0013.
pub open spec fn spec_inline_text_selector(u: Seq<u16>, i: int) -> Option<u16> {
    if i < 6 || i > u.len() {
        None
    } else if u[i - 6] == 0x001c && u[i - 5] == 0x0001 && u[i - 4] == 0x0007 && u[i - 3] == 0x0000
        && u[i - 2] == 0x0000 && (u[i - 1] == 0x0001 || u[i - 1] == 0x0003 || u[i - 1] == 0x0013) {
        Some(u[i - 1])
    } else {
        None
    }
}

pub fn inline_text_selector(units: &[u16], i: usize) -> (r: Option<u16>)
    requires
        i <= units@.len(),
    ensures
        r == spec_inline_text_selector(units@, i as int),
{
    if i < 6 {
        return None;
    }
    if units[i - 6] == 0x001c && units[i - 5] == 0x0001 && units[i - 4] == 0x0007 && units[i - 3]
        == 0x0000 && units[i - 2] == 0x0000 && (units[i - 1] == 0x0001 || units[i - 1] == 0x0003
        || units[i - 1] == 0x0013) {
        Some(units[i - 1])
    } else {
        None
    }
}

/// The selector of a skipped (non-display) inline segment opened at `i`: 0x001c when a record
/// opener stands right before, else `sel` of a `[0x001c, 0x0001, 0x0007, 0x0000, 0x0001, sel]`
/// context.
pub open spec fn spec_skipped_inline_selector(u: Seq<u16>, i: int) -> Option<u16> {
    if i <= 0 || i > u.len() {
        None
    } else if u[i - 1] == 0x001c {
        Some(0x001c)
    } else if i < 6 {
        None
    } else if u[i - 6] == 0x001c && u[i - 5] == 0x0001 && u[i - 4] == 0x0007 && u[i - 3] == 0x0000
        && u[i - 2] == 0x0001 {
        Some(u[i - 1])
    } else {
        None
    }
}

pub fn skipped_inline_selector(units: &[u16], i: usize) -> (r: Option<u16>)
    requires
        i <= units@.len(),
    ensures
        r == spec_skipped_inline_selector(units@, i as int),
{
    if i == 0 {
        return None;
    }
    if units[i - 1] == 0x001c {
        return Some(0x001c);
    }
    if i < 6 {
        return None;
    }
    if units[i - 6] == 0x001c && units[i - 5] == 0x0001 && units[i - 4] == 0x0007 && units[i - 3]
        == 0x0000 && units[i - 2] == 0x0001 {
        Some(units[i - 1])
    } else {
        None
    }
}

/// First index at or after `j` holding the inline terminator 0x001e, or the end of `u`.
pub open spec fn inline_end(u: Seq<u16>, j: int) -> int
    decreases u.len() - j,
{
    if j >= u.len() {
        u.len() as int
    } else if u[j] == INLINE_TEXT_END {
        j
    } else {
        inline_end(u, j + 1)
    }
}

pub proof fn lemma_inline_end(u: Seq<u16>, j: int)
    requires
        0 <= j <= u.len(),
    ensures
        j <= inline_end(u, j) <= u.len(),
        inline_end(u, j) < u.len() ==> u[inline_end(u, j)] == INLINE_TEXT_END,
    decreases u.len() - j,
{
    if j < u.len() && u[j] != INLINE_TEXT_END {
        lemma_inline_end(u, j + 1);
    }
}

/// Index of the terminator closing the inline segment opened at `start` (or the end).
pub fn find_inline_end(units: &[u16], start: usize) -> (e: usize)
    requires
        start < units@.len(),
    ensures
        e == inline_end(units@, start + 1),
        start + 1 <= e <= units@.len(),
{
    proof {
        lemma_inline_end(units@, start + 1);
    }
    let n = units.len();
    let mut k = start + 1;
    while k < units.len() && units[k] != INLINE_TEXT_END
        invariant
            start + 1 <= k <= units@.len(),
            inline_end(units@, k as int) == inline_end(units@, start + 1),
        decreases units@.len() - k,
    {
        k = k + 1;
    }
    k
}

/// Text of the inline segment opened at `start` and the index just past it (past the
/// terminator, or the end of the units when there is none).
pub open spec fn spec_inline_segment(u: Seq<u16>, start: int) -> (Seq<char>, int) {
    let e = inline_end(u, start + 1);
    let t = filtered_text(u.subrange(start + 1, e));
    (t, if e < u.len() { e + 1 } else { e })
}

/// The context, text, raw bytes and next index of a skipped inline segment opened at `start`:
/// `None` unless a terminator follows within `SKIPPED_INLINE_MAX_UNITS` units.
pub open spec fn spec_skipped_segment(u: Seq<u16>, start: int) -> Option<
    (Seq<u16>, Seq<char>, Seq<u16>, int),
> {
    if start < 0 || start >= u.len() || u[start] != INLINE_TEXT_START {
        None
    } else {
        let e = inline_end(u, start + 1);
        let cs = if start >= 6 { start - 6 } else { 0 };
        if e < u.len() && e - start <= SKIPPED_INLINE_MAX_UNITS {
            Some((u.subrange(cs, start), filtered_text(u.subrange(start + 1, e)), u.subrange(cs, e + 1), e + 1))
        } else {
            None
        }
    }
}

/// Record classes known to close with `[len, 0x0000, class, 0x001f]`.
pub open spec fn is_known_record_class(c: u16) -> bool {
    c == RECORD_CLASS_INLINE_CONTEXT || c == RECORD_CLASS_PARAGRAPH_LINE || c
        == RECORD_CLASS_TABLE_SECTION_TRANSITION || c == RECORD_CLASS_TABLE_CELL
}

/// The 0x001f at `i` closes a self-consistent record: `u[i-3] = len`, `u[i-2] = 0`,
/// `u[i-1] = class` (a known class), and the opener at `start = i + 1 - len` re-echoes
/// `[0x001c, class, len]`.
pub open spec fn spec_record_footer_at(u: Seq<u16>, i: int) -> bool {
    &&& 4 <= i < u.len()
    &&& u[i - 2] == 0
    &&& is_known_record_class(u[i - 1])
    &&& 4 <= u[i - 3] <= i + 1
    &&& u[i + 1 - u[i - 3]] == 0x001c
    &&& u[i + 2 - u[i - 3]] == u[i - 1]
    &&& u[i + 3 - u[i - 3]] == u[i - 3]
}

pub fn record_footer_at(units: &[u16], i: usize) -> (r: bool)
    requires
        i < units@.len(),
    ensures
        r == spec_record_footer_at(units@, i as int),
{
    if i < 4 || units[i - 2] != 0 {
        return false;
    }
    let class = units[i - 1];
    if !(class == RECORD_CLASS_INLINE_CONTEXT || class == RECORD_CLASS_PARAGRAPH_LINE || class
        == RECORD_CLASS_TABLE_SECTION_TRANSITION || class == RECORD_CLASS_TABLE_CELL) {
        return false;
    }
    let total = units[i - 3] as usize;
    if total < 4 || total > i + 1 {
        return false;
    }
    let start = i + 1 - total;
    units[start] == 0x001c && units[start + 1] == class && units[start + 2] == units[i - 3]
}

/// Whether `x` occurs in `u[from..to]`.
pub open spec fn occurs_in(u: Seq<u16>, from: int, to: int, x: u16) -> bool {
    exists|k: int| from <= k < to && u[k] == x
}

pub fn occurs(units: &[u16], from: usize, to: usize, x: u16) -> (r: bool)
    requires
        from <= to <= units@.len(),
    ensures
        r == occurs_in(units@, from as int, to as int, x),
{
    let mut k = from;
    while k < to
        invariant
            from <= k <= to <= units@.len(),
            forall|j: int| from <= j < k ==> units@[j] != x,
        decreases to - k,
    {
        if units[k] == x {
            return true;
        }
        k = k + 1;
    }
    false
}

/// A 0x001f at `i` starts a text run when no prose has been read yet; or it closes a record
/// (`spec_record_footer_at`); or it follows an inline opener/terminator; or an inline
/// terminator stands four units back; or a record opener occurs within the previous twelve
/// units; or the stream is still within its first sixteen units with no 0x001c/0x001f before.
pub open spec fn spec_run_start(u: Seq<u16>, i: int, has_prose: bool) -> bool {
    ||| !has_prose
    ||| spec_record_footer_at(u, i)
    ||| (i > 0 && (u[i - 1] == INLINE_TEXT_END || u[i - 1] == INLINE_TEXT_START))
    ||| (i >= 4 && u[i - 4] == INLINE_TEXT_END)
    ||| occurs_in(u, if i >= 12 { i - 12 } else { 0 }, i, 0x001c)
    ||| (i <= 16 && !occurs_in(u, 0, i, 0x001c) && !occurs_in(u, 0, i, 0x001f))
}

pub fn is_document_text_run_start(units: &[u16], i: usize, has_prose: bool) -> (r: bool)
    requires
        i < units@.len(),
    ensures
        r == spec_run_start(units@, i as int, has_prose),
{
    if !has_prose {
        return true;
    }
    if record_footer_at(units, i) {
        return true;
    }
    if i > 0 && (units[i - 1] == INLINE_TEXT_END || units[i - 1] == INLINE_TEXT_START) {
        return true;
    }
    if i >= 4 && units[i - 4] == INLINE_TEXT_END {
        return true;
    }
    let from = if i >= 12 {
        i - 12
    } else {
        0
    };
    if occurs(units, from, i, 0x001c) {
        return true;
    }
    i <= 16 && !occurs(units, 0, i, 0x001c) && !occurs(units, 0, i, 0x001f)
}

} // verus!
