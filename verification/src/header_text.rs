//! The /Header stream: header and footer lines.
use vstd::prelude::*;

use crate::container::{stream_read, is_stream_error, read_cfb_stream};
use crate::document_text::scan::{lemma_marker_from, marker_from, spec_decode_prologue_units};
use crate::document_text::{
    bytes_at, extract_units_text, first_text_marker, spec_extract_document_text, ssmg_magic,
    decode_prologue_units,
};
use crate::error::Error;
use crate::strings::{join_strings, join_with, push_string, strings_view};
use crate::text::{all_whitespace, chars_of, is_blank, string_of};
use crate::units::{be_bytes, be_units, to_be_units};

verus! {

/// Path of the header/footer stream.
pub const HEADER_TEXT_PATH: &'static str = "/Header";

/// The four units of the segment name "TextV.01".
pub open spec fn is_textv_at(u: Seq<u16>, k: int) -> bool {
    0 <= k && k + 4 <= u.len() && u[k] == 0x5465 && u[k + 1] == 0x7874 && u[k + 2] == 0x562e && u[k
        + 3] == 0x3031
}

/// First position at or after `k` where "TextV.01" starts.
pub open spec fn next_textv(u: Seq<u16>, k: int) -> Option<int>
    decreases u.len() - k,
{
    if k < 0 || k + 4 > u.len() {
        None
    } else if is_textv_at(u, k) {
        Some(k)
    } else {
        next_textv(u, k + 1)
    }
}

proof fn lemma_next_textv(u: Seq<u16>, k: int)
    requires
        k >= 0,
    ensures
        next_textv(u, k) matches Some(h) ==> k <= h && is_textv_at(u, h),
    decreases u.len() - k,
{
    if k + 4 <= u.len() && !is_textv_at(u, k) {
        lemma_next_textv(u, k + 1);
    }
}

fn is_textv01_segment_name(units: &[u16], k: usize) -> (r: bool)
    ensures
        r == is_textv_at(units@, k as int),
{
    k <= units.len() && units.len() - k >= 4 && units[k] == 0x5465 && units[k + 1] == 0x7874
        && units[k + 2] == 0x562e && units[k + 3] == 0x3031
}

fn next_textv01(units: &[u16], from: usize) -> (r: Option<usize>)
    ensures
        match next_textv(units@, from as int) {
            None => r is None,
            Some(h) => r == Some(h as usize),
        },
{
    let mut k = from;
    while k <= units.len() && units.len() - k >= 4
        invariant
            from <= k,
            next_textv(units@, k as int) == next_textv(units@, from as int),
        decreases units@.len() - k,
    {
        if is_textv01_segment_name(units, k) {
            return Some(k);
        }
        k = k + 1;
    }
    None
}

/// `s` with every '?' replaced by '1'.
pub open spec fn resolve_page_placeholder(s: Seq<char>) -> Seq<char> {
    Seq::new(s.len(), |i: int| if s[i] == '?' { '1' } else { s[i] })
}

/// Number of trailing CR/LF characters.
pub open spec fn trailing_breaks(s: Seq<char>) -> nat
    decreases s.len(),
{
    if s.len() > 0 && (s.last() == '\r' || s.last() == '\n') {
        1 + trailing_breaks(s.drop_last())
    } else {
        0
    }
}

proof fn lemma_trailing_breaks(s: Seq<char>)
    ensures
        trailing_breaks(s) <= s.len(),
    decreases s.len(),
{
    if s.len() > 0 && (s.last() == '\r' || s.last() == '\n') {
        lemma_trailing_breaks(s.drop_last());
    }
}

/// One header line: trailing CR/LF removed; `None` when what is left is blank.
pub open spec fn header_line(s: Seq<char>) -> Option<Seq<char>> {
    let line = s.take(s.len() - trailing_breaks(s));
    if all_whitespace(line) {
        None
    } else {
        Some(line)
    }
}

/// The line of one span `u[start..end]`: a marker-less span is decoded raw with '?' resolved to
/// page "1"; a span with a marker gives the plain text from that marker on.
pub open spec fn spec_header_span(u: Seq<u16>, start: int, end: int) -> Option<Seq<char>> {
    let m = marker_from(u, start, end);
    if m < end {
        header_line(spec_extract_document_text(be_bytes(u.subrange(m, end))))
    } else {
        match spec_decode_prologue_units(u, start, end) {
            None => None,
            Some((raw, _)) => header_line(resolve_page_placeholder(raw)),
        }
    }
}

/// The header lines found from unit `offset` on, after `lines`; `None` when a declared span
/// runs past the end of the stream, or when no line was found at all.
pub open spec fn header_scan(u: Seq<u16>, offset: int, lines: Seq<Seq<char>>) -> Option<Seq<Seq<char>>>
    decreases u.len() - offset,
{
    if offset < 0 {
        None
    } else {
        match next_textv(u, offset) {
            None => if lines.len() == 0 {
                None
            } else {
                Some(lines)
            },
            Some(hit) => {
                if hit < offset || hit + 5 >= u.len() {
                    None
                } else if u[hit + 4] != 0 {
                    header_scan(u, hit + 1, lines)
                } else {
                    let len = u[hit + 5] as int;
                    let start = hit + 6;
                    if len == 0 {
                        header_scan(u, hit + 1, lines)
                    } else if start + len > u.len() {
                        None
                    } else {
                        let next_lines = match spec_header_span(u, start, start + len) {
                            Some(l) => lines.push(l),
                            None => lines,
                        };
                        header_scan(u, start + len, next_lines)
                    }
                }
            },
        }
    }
}

/// The header lines of a /Header stream: `None` unless it starts with "SsmgV.01" and holds at
/// least ten units, and `None` when `header_scan` from unit 10 gives none.
pub open spec fn spec_parse_header_text(data: Seq<u8>) -> Option<Seq<Seq<char>>> {
    if !bytes_at(data, 0, ssmg_magic()) || data.len() < 20 {
        None
    } else {
        header_scan(be_units(data), 10, Seq::empty())
    }
}

/// A well-formed header line: not blank, and not ending in a line break.
pub open spec fn header_line_ok(l: Seq<char>) -> bool {
    &&& !all_whitespace(l)
    &&& l.len() > 0
    &&& l.last() != '\r'
    &&& l.last() != '\n'
}

/// Every line in `lines` is well-formed.
pub open spec fn header_lines_ok(lines: Seq<Seq<char>>) -> bool {
    forall|i: int| 0 <= i < lines.len() ==> #[trigger] header_line_ok(lines[i])
}

proof fn lemma_trailing_breaks_removed(s: Seq<char>)
    ensures
        trailing_breaks(s) <= s.len(),
        s.len() - trailing_breaks(s) > 0 ==> {
            let c = s[s.len() - trailing_breaks(s) - 1];
            c != '\r' && c != '\n'
        },
    decreases s.len(),
{
    if s.len() > 0 && (s.last() == '\r' || s.last() == '\n') {
        let t = s.drop_last();
        lemma_trailing_breaks_removed(t);
        if t.len() - trailing_breaks(t) > 0 {
            assert(s[s.len() - trailing_breaks(s) - 1] == t[t.len() - trailing_breaks(t) - 1]);
        }
    }
}

proof fn lemma_header_line_ok(s: Seq<char>)
    ensures
        header_line(s) matches Some(l) ==> header_line_ok(l),
{
    lemma_trailing_breaks_removed(s);
    let line = s.take(s.len() - trailing_breaks(s));
    if !all_whitespace(line) {
        if line.len() == 0 {
            assert(all_whitespace(line));
        }
        assert(line.last() == s[s.len() - trailing_breaks(s) - 1]);
    }
}

proof fn lemma_header_span_ok(u: Seq<u16>, start: int, end: int)
    ensures
        spec_header_span(u, start, end) matches Some(l) ==> header_line_ok(l),
{
    let m = marker_from(u, start, end);
    if m < end {
        lemma_header_line_ok(spec_extract_document_text(be_bytes(u.subrange(m, end))));
    } else {
        match spec_decode_prologue_units(u, start, end) {
            None => {},
            Some((raw, _)) => lemma_header_line_ok(resolve_page_placeholder(raw)),
        }
    }
}

proof fn lemma_header_scan_ok(u: Seq<u16>, offset: int, lines: Seq<Seq<char>>)
    requires
        header_lines_ok(lines),
    ensures
        header_scan(u, offset, lines) matches Some(r) ==> r.len() > 0 && header_lines_ok(r),
    decreases u.len() - offset,
{
    if offset >= 0 {
        lemma_next_textv(u, offset);
        match next_textv(u, offset) {
            None => {},
            Some(hit) => {
                if hit < offset || hit + 5 >= u.len() {
                } else if u[hit + 4] != 0 {
                    lemma_header_scan_ok(u, hit + 1, lines);
                } else {
                    let len = u[hit + 5] as int;
                    let start = hit + 6;
                    if len == 0 {
                        lemma_header_scan_ok(u, hit + 1, lines);
                    } else if start + len > u.len() {
                    } else {
                        lemma_header_span_ok(u, start, start + len);
                        let next_lines = match spec_header_span(u, start, start + len) {
                            Some(l) => lines.push(l),
                            None => lines,
                        };
                        assert(header_lines_ok(next_lines)) by {
                            assert forall|i: int| 0 <= i < next_lines.len() implies
                                #[trigger] header_line_ok(next_lines[i]) by {
                                if i < lines.len() {
                                    assert(next_lines[i] == lines[i]);
                                }
                            }
                        }
                        lemma_header_scan_ok(u, start + len, next_lines);
                    }
                }
            },
        }
    }
}

/// A parsed /Header stream has at least one line, and every line holds a character that is not
/// white space and ends in neither CR nor LF.
pub proof fn lemma_header_lines_well_formed(data: Seq<u8>)
    ensures
        spec_parse_header_text(data) matches Some(lines) ==> lines.len() > 0 && header_lines_ok(
            lines,
        ),
{
    if bytes_at(data, 0, ssmg_magic()) && data.len() >= 20 {
        lemma_header_scan_ok(be_units(data), 10, Seq::empty());
    }
}

/// Restored header and footer text: one line per span.
#[derive(Debug, Clone, PartialEq, Eq)]
pub struct HeaderText {
    lines: Vec<String>,
}

impl View for HeaderText {
    type V = Seq<Seq<char>>;

    closed spec fn view(&self) -> Seq<Seq<char>> {
        strings_view(self.lines@)
    }
}

impl Default for HeaderText {
    fn default() -> (r: Self)
        ensures
            r@ == Seq::<Seq<char>>::empty(),
    {
        let r = HeaderText { lines: Vec::new() };
        assert(r@ =~= Seq::<Seq<char>>::empty());
        r
    }
}

impl HeaderText {
    /// The restored lines, in stream order.
    pub fn lines(&self) -> (r: &[String])
        ensures
            strings_view(r@) == self@,
    {
        self.lines.as_slice()
    }

    /// The lines joined with '\n' (no trailing line break).
    pub fn text(&self) -> (r: String)
        ensures
            r@ == join_with(self@, seq!['\n']),
    {
        let r = join_strings(self.lines.as_slice(), "\n");
        proof {
            reveal_strlit("\n");
        }
        assert("\n"@ =~= seq!['\n']);
        r
    }
}

fn to_header_line(s: &[char]) -> (r: Option<String>)
    ensures
        match header_line(s@) {
            None => r is None,
            Some(l) => r matches Some(rl) && rl@ == l,
        },
{
    proof {
        lemma_trailing_breaks(s@);
    }
    let mut n = s.len();
    assert(s@.take(n as int) =~= s@);
    while n > 0 && (s[n - 1] == '\r' || s[n - 1] == '\n')
        invariant
            n <= s@.len(),
            trailing_breaks(s@.take(n as int)) + (s@.len() - n) == trailing_breaks(s@),
        decreases n,
    {
        assert(s@.take(n as int).drop_last() =~= s@.take(n - 1));
        n = n - 1;
    }
    assert(trailing_breaks(s@.take(n as int)) == 0);
    let line = slice_prefix(s, n);
    if is_blank(line.as_slice()) {
        None
    } else {
        Some(string_of(line.as_slice()))
    }
}

/// The first `n` characters of `s`.
pub fn slice_prefix(s: &[char], n: usize) -> (r: Vec<char>)
    requires
        n <= s@.len(),
    ensures
        r@ == s@.take(n as int),
{
    let mut r: Vec<char> = Vec::new();
    let mut i: usize = 0;
    while i < n
        invariant
            i <= n <= s@.len(),
            r@ =~= s@.take(i as int),
        decreases n - i,
    {
        r.push(s[i]);
        i = i + 1;
        assert(r@ =~= s@.take(i as int));
    }
    r
}

fn resolve_placeholder_exec(s: &str) -> (r: Vec<char>)
    ensures
        r@ == resolve_page_placeholder(s@),
{
    let chars = chars_of(s);
    let mut r: Vec<char> = Vec::new();
    let mut i: usize = 0;
    while i < chars.len()
        invariant
            i <= chars@.len(),
            chars@ == s@,
            r@ =~= resolve_page_placeholder(s@).take(i as int),
        decreases chars@.len() - i,
    {
        let c = chars[i];
        if c == '?' {
            r.push('1');
        } else {
            r.push(c);
        }
        i = i + 1;
        assert(r@ =~= resolve_page_placeholder(s@).take(i as int));
    }
    assert(resolve_page_placeholder(s@).take(i as int) =~= resolve_page_placeholder(s@));
    r
}

fn decode_header_span(units: &[u16], start: usize, end: usize) -> (r: Option<String>)
    requires
        start <= end <= units@.len(),
    ensures
        match spec_header_span(units@, start as int, end as int) {
            None => r is None,
            Some(l) => r matches Some(rl) && rl@ == l,
        },
{
    proof {
        lemma_marker_from(units@, start as int, end as int);
    }
    match first_text_marker(units, start, end) {
        Some(m) => {
            let text = extract_units_text(units, m, end);
            to_header_line(text.as_slice())
        },
        None => match decode_prologue_units(units, start, end) {
            None => None,
            Some((raw, _)) => {
                let resolved = resolve_placeholder_exec(raw.as_str());
                to_header_line(resolved.as_slice())
            },
        },
    }
}

/// Parses a /Header stream (see `spec_parse_header_text`).
pub fn parse_header_text(data: &[u8]) -> (r: Option<HeaderText>)
    ensures
        match spec_parse_header_text(data@) {
            None => r is None,
            Some(lines) => r matches Some(h) && h@ == lines,
        },
{
    if data.len() < 20 || !crate::document_text::starts_with_magic_exec(data) {
        return None;
    }
    let units = to_be_units(data);
    let ghost u = units@;
    let mut lines: Vec<String> = Vec::new();
    let mut offset: usize = 10;
    assert(strings_view(lines@) =~= Seq::<Seq<char>>::empty());
    let ghost goal = header_scan(u, 10, Seq::empty());
    assert(spec_parse_header_text(data@) == goal);
    loop
        invariant
            spec_parse_header_text(data@) == goal,
            units@ == u,
            offset <= u.len() + 1,
            header_scan(u, offset as int, strings_view(lines@)) == goal,
        decreases u.len() + 1 - offset,
    {
        proof {
            lemma_next_textv(u, offset as int);
        }
        match next_textv01(units.as_slice(), offset) {
            None => {
                if lines.len() == 0 {
                    return None;
                } else {
                    return Some(HeaderText { lines });
                }
            },
            Some(hit) => {
                if hit >= units.len() || units.len() - hit <= 5 {
                    return None;
                }
                if units[hit + 4] != 0 {
                    offset = hit + 1;
                } else {
                    let len = units[hit + 5] as usize;
                    let start = hit + 6;
                    if len == 0 {
                        offset = hit + 1;
                    } else if len > units.len() - start {
                        return None;
                    } else {
                        match decode_header_span(units.as_slice(), start, start + len) {
                            Some(line) => push_string(&mut lines, line),
                            None => {},
                        }
                        offset = start + len;
                    }
                }
            },
        }
    }
}

/// The header lines of the /Header stream of a compound file: `Ok(None)` when the stream is
/// absent or gives no line; when it cannot be read, the error that reading it gave
/// (`Error::InvalidData` naming the stream).
pub fn read_header_text(data: &[u8]) -> (r: Result<Option<HeaderText>, Error>)
    ensures
        match stream_read(data@, HEADER_TEXT_PATH@) {
            Ok(stream) => r matches Ok(h) && match spec_parse_header_text(stream) {
                None => h is None,
                Some(lines) => h matches Some(t) && t@ == lines,
            },
            Err(true) => r == Ok::<Option<HeaderText>, Error>(None),
            Err(false) => r matches Err(e) && is_stream_error(e, false, HEADER_TEXT_PATH@),
        },
{
    match read_cfb_stream(data, HEADER_TEXT_PATH) {
        Ok(stream) => Ok(parse_header_text(stream.as_slice())),
        Err(Error::NotFound(_)) => Ok(None),
        Err(error) => Err(error),
    }
}

} // verus!
