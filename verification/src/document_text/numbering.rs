//! Heading and itemisation numbers restored from paragraph header records.
use vstd::prelude::*;

use crate::text::{char_from_u32, decimal, decimal_chars, extend_chars};

verus! {

/// Counters carried from one paragraph header to the next.
pub struct NumberingModel {
    pub chapter: nat,
    pub section: nat,
    pub subsection: nat,
    pub list_style: Option<u16>,
    pub list_counter: nat,
    pub style8_level1: nat,
    pub style8_level2: nat,
}

/// All counters at zero, no list style.
pub open spec fn initial_numbering() -> NumberingModel {
    NumberingModel {
        chapter: 0,
        section: 0,
        subsection: 0,
        list_style: None,
        list_counter: 0,
        style8_level1: 0,
        style8_level2: 0,
    }
}

/// Every counter is at most `bound`.
pub open spec fn counters_within(n: NumberingModel, bound: int) -> bool {
    &&& n.chapter <= bound
    &&& n.section <= bound
    &&& n.subsection <= bound
    &&& n.list_counter <= bound
    &&& n.style8_level1 <= bound
    &&& n.style8_level2 <= bound
}

pub struct NumberingState {
    chapter: usize,
    section: usize,
    subsection: usize,
    list_style: Option<u16>,
    list_counter: usize,
    style8_level1: usize,
    style8_level2: usize,
}

impl View for NumberingState {
    type V = NumberingModel;

    closed spec fn view(&self) -> NumberingModel {
        NumberingModel {
            chapter: self.chapter as nat,
            section: self.section as nat,
            subsection: self.subsection as nat,
            list_style: self.list_style,
            list_counter: self.list_counter as nat,
            style8_level1: self.style8_level1 as nat,
            style8_level2: self.style8_level2 as nat,
        }
    }
}

impl NumberingState {
    pub fn new() -> (s: Self)
        ensures
            s@ == initial_numbering(),
    {
        NumberingState {
            chapter: 0,
            section: 0,
            subsection: 0,
            list_style: None,
            list_counter: 0,
            style8_level1: 0,
            style8_level2: 0,
        }
    }
}

/// First value `v` of a `[tag, 0x0002, v]` triple in `h`, searching from `k`.
pub open spec fn tagged_value(h: Seq<u16>, tag: u16, k: int) -> Option<u16>
    decreases h.len() - k,
{
    if k < 0 || k + 3 > h.len() {
        None
    } else if h[k] == tag && h[k + 1] == 0x0002 {
        Some(h[k + 2])
    } else {
        tagged_value(h, tag, k + 1)
    }
}

/// `h` holds `[0x00a3, 0x0002, style, 0x7fff]`: the list restarts.
pub open spec fn has_restart(h: Seq<u16>, style: u16) -> bool {
    exists|k: int|
        0 <= k && k + 4 <= h.len() && #[trigger] h[k] == 0x00a3 && h[k + 1] == 0x0002 && h[k + 2]
            == style && h[k + 3] == 0x7fff
}

/// `(n)` for a number that has no dedicated symbol.
pub open spec fn parenthesized(n: nat) -> Seq<char> {
    seq!['('] + decimal(n) + seq![')']
}

/// Circled numbers ① to ⑳, `(n)` otherwise.
pub open spec fn circled(n: nat) -> Seq<char> {
    if 1 <= n <= 20 {
        seq![(0x245f + n) as char]
    } else {
        parenthesized(n)
    }
}

/// `(a)` to `(z)`, `(n)` otherwise.
pub open spec fn alpha(n: nat) -> Seq<char> {
    if 1 <= n <= 26 {
        seq!['(', (0x60 + n) as char, ')']
    } else {
        parenthesized(n)
    }
}

/// The numbering prefix of a paragraph header `h`, and the counters after it.
pub open spec fn prefix_for_header(h: Seq<u16>, st: NumberingModel) -> (Option<Seq<char>>, NumberingModel) {
    match tagged_value(h, 0x00a3, 0) {
        None => (None, NumberingModel { list_style: None, list_counter: 0, ..st }),
        Some(style) => {
            let lv = tagged_value(h, 0x0050, 0);
            if style == 1 && lv is Some {
                let st1 = NumberingModel { list_style: None, list_counter: 0, ..st };
                let level = lv.unwrap();
                if level == 1 {
                    let c = st.chapter + 1;
                    (
                        Some(seq!['\u{7b2c}'] + decimal(c) + seq!['\u{7ae0}', ' ']),
                        NumberingModel { chapter: c, section: 0, subsection: 0, ..st1 },
                    )
                } else if level == 2 {
                    let s = st.section + 1;
                    (
                        Some(decimal(st.chapter) + seq!['.'] + decimal(s) + seq![' ']),
                        NumberingModel { section: s, subsection: 0, ..st1 },
                    )
                } else if level == 3 {
                    let ss = st.subsection + 1;
                    (
                        Some(decimal(st.chapter) + seq!['.'] + decimal(st.section) + seq!['.']
                            + decimal(ss) + seq![' ']),
                        NumberingModel { subsection: ss, ..st1 },
                    )
                } else {
                    (
                        Some(seq!['(', 'l', 'e', 'v', 'e', 'l', ' '] + decimal(level as nat) + seq![
                            ')',
                            ' ',
                        ]),
                        st1,
                    )
                }
            } else if style == 8 {
                let level = if lv is Some {
                    lv.unwrap()
                } else {
                    1
                };
                if level == 1 {
                    let a = st.style8_level1 + 1;
                    (
                        Some(circled(a) + seq![' ']),
                        NumberingModel { style8_level1: a, style8_level2: 0, ..st },
                    )
                } else {
                    let b = st.style8_level2 + 1;
                    (
                        Some(circled(st.style8_level1) + seq!['-'] + decimal(b) + seq![' ']),
                        NumberingModel { style8_level2: b, ..st },
                    )
                }
            } else if style == 2 || style == 3 || style == 4 {
                let restart = st.list_style != Some(style) || has_restart(h, style);
                let lc: nat = if restart {
                    1
                } else {
                    st.list_counter + 1
                };
                let p = if style == 2 {
                    parenthesized(lc) + seq![' ']
                } else if style == 3 {
                    alpha(lc) + seq![' ']
                } else {
                    decimal(lc) + seq!['.', ' ']
                };
                (Some(p), NumberingModel { list_style: Some(style), list_counter: lc, ..st })
            } else {
                (None, st)
            }
        },
    }
}

/// The 0x001f at `m` closes a paragraph header record
/// `[0x001c, 0x0010, len, ..., len, 0x0000, 0x0010, 0x001f]`: its numbering prefix and the
/// counters after it; nothing and the same counters otherwise.
pub open spec fn spec_header_prefix(u: Seq<u16>, m: int, st: NumberingModel) -> (Option<Seq<char>>, NumberingModel) {
    if !(3 <= m < u.len()) || u[m - 2] != 0 || u[m - 1] != 0x0010 {
        (None, st)
    } else {
        let total = u[m - 3] as int;
        if total < 4 || m + 1 < total {
            (None, st)
        } else {
            let start = m + 1 - total;
            if u[start] != 0x001c || u[start + 1] != 0x0010 || u[start + 2] != u[m - 3] {
                (None, st)
            } else {
                prefix_for_header(u.subrange(start, m + 1), st)
            }
        }
    }
}

/// Counters grow by at most one per header.
pub proof fn lemma_header_prefix_counters(u: Seq<u16>, m: int, st: NumberingModel, bound: int)
    requires
        counters_within(st, bound),
        bound >= 0,
    ensures
        counters_within(spec_header_prefix(u, m, st).1, bound + 1),
{
}

/// `h` is a heading header of the given level (list style 1, level tag 0x0050).
pub open spec fn is_heading(h: Seq<u16>, level: u16) -> bool {
    tagged_value(h, 0x00a3, 0) == Some(1u16) && tagged_value(h, 0x0050, 0) == Some(level)
}

/// A level-1 heading opens the next chapter and restarts its sections: it is numbered
/// `第<chapter + 1>章`, and the counters after it are (chapter + 1, 0, 0); the first level-2
/// heading after it is numbered `<chapter + 1>.1`, and a level-3 heading after that
/// `<chapter + 1>.1.1`.
pub proof fn lemma_chapter_restarts_sections(
    h1: Seq<u16>,
    h2: Seq<u16>,
    h3: Seq<u16>,
    st: NumberingModel,
)
    requires
        is_heading(h1, 1),
        is_heading(h2, 2),
        is_heading(h3, 3),
    ensures
        ({
            let (p1, st1) = prefix_for_header(h1, st);
            let (p2, st2) = prefix_for_header(h2, st1);
            let (p3, st3) = prefix_for_header(h3, st2);
            let c = decimal(st.chapter + 1);
            &&& p1 == Some(seq!['\u{7b2c}'] + c + seq!['\u{7ae0}', ' '])
            &&& st1.chapter == st.chapter + 1 && st1.section == 0 && st1.subsection == 0
            &&& p2 == Some(c + seq!['.'] + decimal(1) + seq![' '])
            &&& st2.chapter == st.chapter + 1 && st2.section == 1 && st2.subsection == 0
            &&& p3 == Some(c + seq!['.'] + decimal(1) + seq!['.'] + decimal(1) + seq![' '])
        }),
{
}

/// A level-2 heading numbers the next section of the current chapter and restarts its
/// subsections: `<chapter>.<section + 1>`, then a level-3 heading `<chapter>.<section + 1>.1`.
pub proof fn lemma_section_restarts_subsections(h2: Seq<u16>, h3: Seq<u16>, st: NumberingModel)
    requires
        is_heading(h2, 2),
        is_heading(h3, 3),
    ensures
        ({
            let (p2, st2) = prefix_for_header(h2, st);
            let (p3, st3) = prefix_for_header(h3, st2);
            let c = decimal(st.chapter);
            let s = decimal(st.section + 1);
            &&& p2 == Some(c + seq!['.'] + s + seq![' '])
            &&& st2.chapter == st.chapter && st2.section == st.section + 1 && st2.subsection == 0
            &&& p3 == Some(c + seq!['.'] + s + seq!['.'] + decimal(1) + seq![' '])
        }),
{
}

fn tagged_value_in(units: &[u16], start: usize, end: usize, tag: u16) -> (r: Option<u16>)
    requires
        start <= end <= units@.len(),
    ensures
        r == tagged_value(units@.subrange(start as int, end as int), tag, 0),
{
    let ghost h = units@.subrange(start as int, end as int);
    let mut k = start;
    while k < end && end - k >= 3
        invariant
            start <= k <= end <= units@.len(),
            h == units@.subrange(start as int, end as int),
            tagged_value(h, tag, k - start) == tagged_value(h, tag, 0),
        decreases end - k,
    {
        if units[k] == tag && units[k + 1] == 0x0002 {
            return Some(units[k + 2]);
        }
        k = k + 1;
    }
    None
}

fn restart_in(units: &[u16], start: usize, end: usize, style: u16) -> (r: bool)
    requires
        start <= end <= units@.len(),
    ensures
        r == has_restart(units@.subrange(start as int, end as int), style),
{
    let ghost h = units@.subrange(start as int, end as int);
    let mut k = start;
    while k < end && end - k >= 4
        invariant
            start <= k <= end <= units@.len(),
            h == units@.subrange(start as int, end as int),
            forall|j: int|
                0 <= j < k - start ==> !(#[trigger] h[j] == 0x00a3 && h[j + 1] == 0x0002 && h[j
                    + 2] == style && h[j + 3] == 0x7fff),
        decreases end - k,
    {
        if units[k] == 0x00a3 && units[k + 1] == 0x0002 && units[k + 2] == style && units[k + 3]
            == 0x7fff {
            assert(h[k - start] == 0x00a3);
            return true;
        }
        k = k + 1;
    }
    false
}

fn parenthesized_chars(n: usize) -> (r: Vec<char>)
    ensures
        r@ == parenthesized(n as nat),
{
    let mut r = Vec::new();
    r.push('(');
    let d = decimal_chars(n);
    extend_chars(&mut r, &d);
    r.push(')');
    assert(r@ =~= parenthesized(n as nat));
    r
}

fn circled_number(n: usize) -> (r: Vec<char>)
    ensures
        r@ == circled(n as nat),
{
    if 1 <= n && n <= 20 {
        let v: u32 = 0x245f + n as u32;
        match char_from_u32(v) {
            Some(c) => {
                let mut r = Vec::new();
                r.push(c);
                assert(r@ =~= circled(n as nat));
                r
            },
            None => {
                assert(false);
                Vec::new()
            },
        }
    } else {
        parenthesized_chars(n)
    }
}

fn alpha_number(n: usize) -> (r: Vec<char>)
    ensures
        r@ == alpha(n as nat),
{
    if 1 <= n && n <= 26 {
        let v: u32 = 0x60 + n as u32;
        match char_from_u32(v) {
            Some(c) => {
                let mut r = Vec::new();
                r.push('(');
                r.push(c);
                r.push(')');
                assert(r@ =~= alpha(n as nat));
                r
            },
            None => {
                assert(false);
                Vec::new()
            },
        }
    } else {
        parenthesized_chars(n)
    }
}

fn push_decimal(out: &mut Vec<char>, n: usize)
    ensures
        final(out)@ == old(out)@ + decimal(n as nat),
{
    let d = decimal_chars(n);
    extend_chars(out, &d);
}

/// The numbering prefix of the paragraph header record that the 0x001f at `m` closes,
/// updating the counters (see `spec_header_prefix`).
pub fn paragraph_header_prefix(units: &[u16], m: usize, state: &mut NumberingState) -> (r: Option<
    Vec<char>,
>)
    requires
        m < units@.len(),
        counters_within(old(state)@, usize::MAX - 1),
    ensures
        ({
            let (p, st) = spec_header_prefix(units@, m as int, old(state)@);
            &&& final(state)@ == st
            &&& match p {
                None => r is None,
                Some(t) => r matches Some(rt) && rt@ == t,
            }
        }),
{
    if m < 3 || units[m - 2] != 0 || units[m - 1] != 0x0010 {
        return None;
    }
    let total = units[m - 3] as usize;
    if total < 4 || m + 1 < total {
        return None;
    }
    let start = m + 1 - total;
    if units[start] != 0x001c || units[start + 1] != 0x0010 || units[start + 2] != units[m - 3] {
        return None;
    }
    let end = m + 1;
    let ghost h = units@.subrange(start as int, end as int);
    let a3 = tagged_value_in(units, start, end, 0x00a3);
    match a3 {
        None => {
            state.list_style = None;
            state.list_counter = 0;
            None
        },
        Some(style) => {
            let lv = tagged_value_in(units, start, end, 0x0050);
            if style == 1 && lv.is_some() {
                state.list_style = None;
                state.list_counter = 0;
                let level = match lv {
                    Some(l) => l,
                    None => 0,
                };
                let mut p: Vec<char> = Vec::new();
                if level == 1 {
                    state.chapter = state.chapter + 1;
                    state.section = 0;
                    state.subsection = 0;
                    p.push('\u{7b2c}');
                    push_decimal(&mut p, state.chapter);
                    p.push('\u{7ae0}');
                    p.push(' ');
                } else if level == 2 {
                    state.section = state.section + 1;
                    state.subsection = 0;
                    push_decimal(&mut p, state.chapter);
                    p.push('.');
                    push_decimal(&mut p, state.section);
                    p.push(' ');
                } else if level == 3 {
                    state.subsection = state.subsection + 1;
                    push_decimal(&mut p, state.chapter);
                    p.push('.');
                    push_decimal(&mut p, state.section);
                    p.push('.');
                    push_decimal(&mut p, state.subsection);
                    p.push(' ');
                } else {
                    p.push('(');
                    p.push('l');
                    p.push('e');
                    p.push('v');
                    p.push('e');
                    p.push('l');
                    p.push(' ');
                    push_decimal(&mut p, level as usize);
                    p.push(')');
                    p.push(' ');
                }
                let ghost expected = spec_header_prefix(units@, m as int, old(state)@);
                assert(p@ =~= expected.0.unwrap());
                Some(p)
            } else if style == 8 {
                let level = match lv {
                    Some(l) => l,
                    None => 1,
                };
                let mut p: Vec<char>;
                if level == 1 {
                    state.style8_level1 = state.style8_level1 + 1;
                    state.style8_level2 = 0;
                    p = circled_number(state.style8_level1);
                    p.push(' ');
                } else {
                    state.style8_level2 = state.style8_level2 + 1;
                    p = circled_number(state.style8_level1);
                    p.push('-');
                    push_decimal(&mut p, state.style8_level2);
                    p.push(' ');
                }
                let ghost expected = spec_header_prefix(units@, m as int, old(state)@);
                assert(p@ =~= expected.0.unwrap());
                Some(p)
            } else if style == 2 || style == 3 || style == 4 {
                let restart = restart_in(units, start, end, style);
                let same_style = match state.list_style {
                    Some(s) => s == style,
                    None => false,
                };
                if !same_style || restart {
                    state.list_style = Some(style);
                    state.list_counter = 1;
                } else {
                    state.list_counter = state.list_counter + 1;
                }
                let mut p: Vec<char>;
                if style == 2 {
                    p = parenthesized_chars(state.list_counter);
                    p.push(' ');
                } else if style == 3 {
                    p = alpha_number(state.list_counter);
                    p.push(' ');
                } else {
                    p = Vec::new();
                    push_decimal(&mut p, state.list_counter);
                    p.push('.');
                    p.push(' ');
                }
                let ghost expected = spec_header_prefix(units@, m as int, old(state)@);
                assert(p@ =~= expected.0.unwrap());
                Some(p)
            } else {
                None
            }
        },
    }
}

} // verus!
