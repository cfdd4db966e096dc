//! Reading the DocumentText payload of a compound file, with the embedded-fragment fallback.
use vstd::prelude::*;

use super::{
    ElementModel, ParsedDocumentText, bytes_at, elements_text, extract_document_text,
    parse_document_text, spec_extract_document_text, spec_parse_document_text, ssmg_magic,
    text_elements, trim_exposed,
};
use super::{COMPRESSED_DOCUMENT_PATH, DOCUMENT_TEXT_PATH, EMBEDDED_DOCUMENT_TEXT_PATH};
use crate::container::{stream_read, read_cfb_stream};
use crate::error::{Error, owned};
use crate::limits::{DecompressionBudget, ParseLimits};
use crate::strings::{join_strings, join_with, push_string, strings_view};
use crate::text::{all_whitespace, chars_of, is_blank, spec_is_whitespace, string_of};

verus! {

/// Largest embedded fragment read, in bytes.
pub const EMBEDDED_DOCUMENT_TEXT_MAX_SPAN: usize = 65536;

/// A DocumentText payload: where it came from, its bytes, its elements and its plain text.
pub struct PayloadModel {
    pub source_name: Seq<char>,
    pub bytes: Seq<u8>,
    pub elements: Seq<ElementModel>,
    pub text: Seq<char>,
}

/// The payload built from a source name, bytes and elements; the text is their plain text.
pub open spec fn payload_of(source: Seq<char>, bytes: Seq<u8>, elements: Seq<ElementModel>) -> PayloadModel {
    PayloadModel {
        source_name: source,
        bytes,
        elements,
        text: trim_exposed(elements_text(elements)),
    }
}

#[derive(Debug, Clone, PartialEq, Eq)]
pub struct DocumentTextPayload {
    source_name: String,
    bytes: Vec<u8>,
    parsed_text: ParsedDocumentText,
    text: String,
}

impl View for DocumentTextPayload {
    type V = PayloadModel;

    closed spec fn view(&self) -> PayloadModel {
        PayloadModel {
            source_name: self.source_name@,
            bytes: self.bytes@,
            elements: self.parsed_text@,
            text: self.text@,
        }
    }
}

impl DocumentTextPayload {
    fn new(source_name: String, bytes: Vec<u8>, parsed_text: ParsedDocumentText) -> (r: Self)
        ensures
            r@ == payload_of(source_name@, bytes@, parsed_text@),
    {
        let text = parsed_text.plain_text();
        DocumentTextPayload { source_name, bytes, parsed_text, text }
    }

    pub fn source_name(&self) -> (r: &str)
        ensures
            r@ == self@.source_name,
    {
        self.source_name.as_str()
    }

    pub fn bytes(&self) -> (r: &[u8])
        ensures
            r@ == self@.bytes,
    {
        self.bytes.as_slice()
    }

    pub fn parsed_text(&self) -> (r: &ParsedDocumentText)
        ensures
            r@ == self@.elements,
    {
        &self.parsed_text
    }

    pub fn text(&self) -> (r: &str)
        ensures
            r@ == self@.text,
    {
        self.text.as_str()
    }
}

/// The 26 bytes "\x26\0JustCompressedDocument\0" that open a just-compressed document.
pub open spec fn just_compressed_magic() -> Seq<u8> {
    seq![
        0x26u8, 0x00, 0x4a, 0x75, 0x73, 0x74, 0x43, 0x6f, 0x6d, 0x70, 0x72, 0x65, 0x73, 0x73, 0x65,
        0x64, 0x44, 0x6f, 0x63, 0x75, 0x6d, 0x65, 0x6e, 0x74, 0x00,
    ]
}

/// Whether a stream starts with the just-compressed document signature.
pub open spec fn spec_is_just_compressed_document(data: Seq<u8>) -> bool {
    bytes_at(data, 0, just_compressed_magic())
}

pub fn is_just_compressed_document(data: &[u8]) -> (r: bool)
    ensures
        r == spec_is_just_compressed_document(data@),
{
    let mut magic: Vec<u8> = Vec::new();
    magic.push(0x26u8);
    magic.push(0x00u8);
    let name = chars_of("JustCompressedDocument");
    proof {
        reveal_strlit("JustCompressedDocument");
    }
    let mut i: usize = 0;
    while i < name.len()
        invariant
            i <= name@.len(),
            name@ == "JustCompressedDocument"@,
            magic@ =~= seq![0x26u8, 0x00] + name@.take(i as int).map_values(|c: char| c as u8),
        decreases name@.len() - i,
    {
        magic.push(name[i] as u8);
        i = i + 1;
        assert(magic@ =~= seq![0x26u8, 0x00] + name@.take(i as int).map_values(|c: char| c as u8));
    }
    magic.push(0x00u8);
    assert(magic@ =~= just_compressed_magic());
    super::bytes_match(data, 0, magic.as_slice())
}

/// Start offsets, from `k` on, of every occurrence of "SsmgV.01" in `data`.
pub open spec fn magic_offsets_from(data: Seq<u8>, k: int) -> Seq<int>
    decreases data.len() - k,
{
    if k < 0 || k + 8 > data.len() {
        Seq::empty()
    } else if bytes_at(data, k, ssmg_magic()) {
        seq![k] + magic_offsets_from(data, k + 1)
    } else {
        magic_offsets_from(data, k + 1)
    }
}

/// Lines of `s` split at every '\r' and every '\n' (`str::split(['\r', '\n'])`).
pub open spec fn split_lines(s: Seq<char>) -> Seq<Seq<char>>
    decreases s.len(),
{
    if s.len() == 0 {
        seq![Seq::empty()]
    } else {
        let p = split_lines(s.drop_last());
        let c = s.last();
        if c == '\r' || c == '\n' {
            p.push(Seq::empty())
        } else {
            p.update(p.len() - 1, p.last().push(c))
        }
    }
}

/// Number of leading NUL characters.
pub open spec fn leading_nul(s: Seq<char>) -> nat
    decreases s.len(),
{
    if s.len() > 0 && s[0] == '\0' {
        1 + leading_nul(s.drop_first())
    } else {
        0
    }
}

/// Number of trailing NUL characters.
pub open spec fn trailing_nul(s: Seq<char>) -> nat
    decreases s.len(),
{
    if s.len() > 0 && s.last() == '\0' {
        1 + trailing_nul(s.drop_last())
    } else {
        0
    }
}

/// `s` without leading and trailing NUL characters (`str::trim_matches('\0')`).
pub open spec fn trim_nul(s: Seq<char>) -> Seq<char> {
    let t = s.take(s.len() - trailing_nul(s));
    t.skip(leading_nul(t) as int)
}

/// Printable ASCII, kana and CJK blocks, full-width forms and common Japanese punctuation.
pub open spec fn plausible_embedded_character(c: char) -> bool {
    let v = c as u32;
    ||| (0x21 <= v && v <= 0x7e)
    ||| (0x3000 <= v && v <= 0x30ff)
    ||| (0x31f0 <= v && v <= 0x31ff)
    ||| (0x3200 <= v && v <= 0x33ff)
    ||| (0x4e00 <= v && v <= 0x9fff)
    ||| (0xff00 <= v && v <= 0xffef)
    ||| c == '\u{3001}' || c == '\u{3002}' || c == '\u{30fb}' || c == '\u{300c}' || c == '\u{300d}'
        || c == '\u{300e}' || c == '\u{300f}' || c == '\u{3010}' || c == '\u{3011}' || c
        == '\u{ff08}' || c == '\u{ff09}' || c == '\u{ff3b}' || c == '\u{ff3d}' || c == '\u{2192}'
        || c == '\u{2190}' || c == '\u{2191}' || c == '\u{2193}' || c == '\u{ff5e}' || c
        == '\u{2026}' || c == '\u{25ce}' || c == '\u{25cb}' || c == '\u{25cf}' || c == '\u{25c6}'
        || c == '\u{2606}' || c == '\u{2605}' || c == '\u{203b}'
}

/// Non-white-space characters of `s`.
pub open spec fn ink_count(s: Seq<char>) -> nat
    decreases s.len(),
{
    if s.len() == 0 {
        0
    } else {
        ink_count(s.drop_last()) + if spec_is_whitespace(s.last()) {
            0nat
        } else {
            1nat
        }
    }
}

/// Non-white-space characters of `s` that are plausible.
pub open spec fn plausible_count(s: Seq<char>) -> nat
    decreases s.len(),
{
    if s.len() == 0 {
        0
    } else {
        plausible_count(s.drop_last()) + if !spec_is_whitespace(s.last())
            && plausible_embedded_character(s.last()) {
            1nat
        } else {
            0nat
        }
    }
}

/// At least one non-white-space character, and at least 80% of them plausible.
pub open spec fn plausible_embedded_line(s: Seq<char>) -> bool {
    ink_count(s) > 0 && plausible_count(s) * 100 >= ink_count(s) * 80
}

/// Lines kept by the noise filter, each trimmed of NULs: the non-blank plausible ones.
pub open spec fn clean_lines(lines: Seq<Seq<char>>) -> Seq<Seq<char>>
    decreases lines.len(),
{
    if lines.len() == 0 {
        Seq::empty()
    } else {
        let p = clean_lines(lines.drop_last());
        let l = trim_nul(lines.last());
        if !all_whitespace(l) && plausible_embedded_line(l) {
            p.push(l)
        } else {
            p
        }
    }
}

/// Text with implausible (noise) lines dropped.
pub open spec fn cleaned_embedded_text(text: Seq<char>) -> Seq<char> {
    join_with(clean_lines(split_lines(text)), seq!['\n'])
}

/// Accumulated bytes and texts of embedded fragments.
pub struct EmbeddedAcc {
    pub bytes: Seq<u8>,
    pub parts: Seq<Seq<char>>,
}

/// Fragment `i` of the stream: from its magic to the next magic, at most 64 KiB.
pub open spec fn fragment_bounds(data: Seq<u8>, offs: Seq<int>, i: int) -> (int, int) {
    let start = offs[i];
    let next = if i + 1 < offs.len() {
        offs[i + 1]
    } else {
        data.len() as int
    };
    let cap = start + EMBEDDED_DOCUMENT_TEXT_MAX_SPAN;
    (start, if next < cap {
        next
    } else {
        cap
    })
}

/// Fragments `0..k` folded: each fragment whose cleaned text is not blank and not yet seen is
/// kept (bytes separated by two zero bytes).
pub open spec fn embedded_fold(data: Seq<u8>, offs: Seq<int>, k: int) -> EmbeddedAcc
    decreases k,
{
    if k <= 0 {
        EmbeddedAcc { bytes: Seq::empty(), parts: Seq::empty() }
    } else {
        let acc = embedded_fold(data, offs, k - 1);
        let (start, end) = fragment_bounds(data, offs, k - 1);
        if end <= start {
            acc
        } else {
            let fragment = data.subrange(start, end);
            let text = cleaned_embedded_text(spec_extract_document_text(fragment));
            if all_whitespace(text) || acc.parts.contains(text) {
                acc
            } else {
                EmbeddedAcc {
                    bytes: if acc.bytes.len() > 0 {
                        acc.bytes + seq![0u8, 0u8] + fragment
                    } else {
                        fragment
                    },
                    parts: acc.parts.push(text),
                }
            }
        }
    }
}

/// Text recovered from SsmgV.01 fragments found anywhere in `data`; `None` when none gives text.
pub open spec fn spec_embedded_document_text(data: Seq<u8>) -> Option<PayloadModel> {
    let offs = magic_offsets_from(data, 0);
    let acc = embedded_fold(data, offs, offs.len() as int);
    if acc.parts.len() == 0 {
        None
    } else {
        Some(
            payload_of(
                EMBEDDED_DOCUMENT_TEXT_PATH@,
                acc.bytes,
                text_elements(join_with(acc.parts, seq!['\n'])),
            ),
        )
    }
}

proof fn lemma_magic_offsets(data: Seq<u8>, k: int)
    requires
        0 <= k,
    ensures
        forall|i: int|
            0 <= i < magic_offsets_from(data, k).len() ==> k <= #[trigger] magic_offsets_from(
                data,
                k,
            )[i] && magic_offsets_from(data, k)[i] + 8 <= data.len(),
        forall|i: int, j: int|
            0 <= i < j < magic_offsets_from(data, k).len() ==> #[trigger] magic_offsets_from(
                data,
                k,
            )[i] < #[trigger] magic_offsets_from(data, k)[j],
    decreases data.len() - k,
{
    if k + 8 <= data.len() {
        lemma_magic_offsets(data, k + 1);
        let rest = magic_offsets_from(data, k + 1);
        if bytes_at(data, k, ssmg_magic()) {
            let all = magic_offsets_from(data, k);
            assert forall|i: int| 0 <= i < all.len() implies k <= #[trigger] all[i] && all[i] + 8
                <= data.len() by {
                if i > 0 {
                    assert(all[i] == rest[i - 1]);
                }
            }
            assert forall|i: int, j: int| 0 <= i < j < all.len() implies #[trigger] all[i]
                < #[trigger] all[j] by {
                assert(all[j] == rest[j - 1]);
                if i > 0 {
                    assert(all[i] == rest[i - 1]);
                }
            }
        }
    }
}

fn find_document_text_magic_offsets(data: &[u8]) -> (r: Vec<usize>)
    ensures
        r@.map_values(|x: usize| x as int) == magic_offsets_from(data@, 0),
{
    let magic = super::ssmg_magic_bytes();
    let mut r: Vec<usize> = Vec::new();
    let mut k: usize = 0;
    while k <= data.len() && data.len() - k >= 8
        invariant
            magic@ == ssmg_magic(),
            r@.map_values(|x: usize| x as int) + magic_offsets_from(data@, k as int)
                == magic_offsets_from(data@, 0),
        decreases data@.len() - k,
    {
        let ghost before = r@.map_values(|x: usize| x as int);
        if super::bytes_match(data, k, magic.as_slice()) {
            r.push(k);
            assert(r@.map_values(|x: usize| x as int) =~= before.push(k as int));
            assert(before + magic_offsets_from(data@, k as int) =~= before.push(k as int)
                + magic_offsets_from(data@, k + 1));
        }
        k = k + 1;
    }
    assert(magic_offsets_from(data@, k as int) =~= Seq::<int>::empty());
    assert(r@.map_values(|x: usize| x as int) + Seq::<int>::empty() =~= r@.map_values(
        |x: usize| x as int,
    ));
    r
}

proof fn lemma_split_lines_len(s: Seq<char>)
    ensures
        split_lines(s).len() >= 1,
    decreases s.len(),
{
    if s.len() > 0 {
        lemma_split_lines_len(s.drop_last());
    }
}

fn split_lines_exec(s: &[char]) -> (r: Vec<Vec<char>>)
    ensures
        r@.map_values(|l: Vec<char>| l@) == split_lines(s@),
{
    let mut lines: Vec<Vec<char>> = Vec::new();
    let mut current: Vec<char> = Vec::new();
    let mut i: usize = 0;
    assert(s@.take(0) =~= Seq::<char>::empty());
    assert(lines@.map_values(|l: Vec<char>| l@).push(current@) =~= split_lines(s@.take(0)));
    while i < s.len()
        invariant
            i <= s@.len(),
            lines@.map_values(|l: Vec<char>| l@).push(current@) == split_lines(s@.take(i as int)),
        decreases s@.len() - i,
    {
        let c = s[i];
        let ghost lv = lines@.map_values(|l: Vec<char>| l@);
        let ghost cv = current@;
        assert(s@.take(i + 1).drop_last() =~= s@.take(i as int));
        if c == '\r' || c == '\n' {
            let done = current;
            current = Vec::new();
            lines.push(done);
            assert(lines@.map_values(|l: Vec<char>| l@) =~= lv.push(cv));
            assert(lines@.map_values(|l: Vec<char>| l@).push(current@) =~= lv.push(cv).push(
                Seq::empty(),
            ));
        } else {
            current.push(c);
            assert(lv.push(cv).update(lv.len() as int, cv.push(c)) =~= lv.push(current@));
        }
        i = i + 1;
    }
    assert(s@.take(i as int) =~= s@);
    let ghost lv = lines@.map_values(|l: Vec<char>| l@);
    lines.push(current);
    assert(lines@.map_values(|l: Vec<char>| l@) =~= lv.push(current@));
    lines
}

fn trim_nul_exec(s: &[char]) -> (r: Vec<char>)
    ensures
        r@ == trim_nul(s@),
{
    let mut end = s.len();
    assert(s@.take(end as int) =~= s@);
    while end > 0 && s[end - 1] == '\0'
        invariant
            end <= s@.len(),
            trailing_nul(s@.take(end as int)) + (s@.len() - end) == trailing_nul(s@),
        decreases end,
    {
        assert(s@.take(end as int).drop_last() =~= s@.take(end - 1));
        end = end - 1;
    }
    assert(trailing_nul(s@.take(end as int)) == 0);
    let ghost t = s@.take(end as int);
    let mut start: usize = 0;
    assert(t.skip(0) =~= t);
    while start < end && s[start] == '\0'
        invariant
            start <= end <= s@.len(),
            t == s@.take(end as int),
            start + leading_nul(t.skip(start as int)) == leading_nul(t),
        decreases end - start,
    {
        assert(t.skip(start as int).drop_first() =~= t.skip(start + 1));
        start = start + 1;
    }
    assert(leading_nul(t.skip(start as int)) == 0);
    let mut r: Vec<char> = Vec::new();
    let mut i = start;
    while i < end
        invariant
            start <= i <= end <= s@.len(),
            r@ =~= s@.subrange(start as int, i as int),
        decreases end - i,
    {
        r.push(s[i]);
        i = i + 1;
        assert(r@ =~= s@.subrange(start as int, i as int));
    }
    assert(trim_nul(s@) =~= s@.subrange(start as int, end as int));
    r
}

fn is_plausible_embedded_character(c: char) -> (r: bool)
    ensures
        r == plausible_embedded_character(c),
{
    let v = c as u32;
    (0x21 <= v && v <= 0x7e) || (0x3000 <= v && v <= 0x30ff) || (0x31f0 <= v && v <= 0x31ff) || (
    0x3200 <= v && v <= 0x33ff) || (0x4e00 <= v && v <= 0x9fff) || (0xff00 <= v && v <= 0xffef)
        || c == '\u{3001}' || c == '\u{3002}' || c == '\u{30fb}' || c == '\u{300c}' || c
        == '\u{300d}' || c == '\u{300e}' || c == '\u{300f}' || c == '\u{3010}' || c == '\u{3011}'
        || c == '\u{ff08}' || c == '\u{ff09}' || c == '\u{ff3b}' || c == '\u{ff3d}' || c
        == '\u{2192}' || c == '\u{2190}' || c == '\u{2191}' || c == '\u{2193}' || c == '\u{ff5e}'
        || c == '\u{2026}' || c == '\u{25ce}' || c == '\u{25cb}' || c == '\u{25cf}' || c
        == '\u{25c6}' || c == '\u{2606}' || c == '\u{2605}' || c == '\u{203b}'
}

fn is_plausible_embedded_line(s: &[char]) -> (r: bool)
    ensures
        r == plausible_embedded_line(s@),
{
    let mut total: usize = 0;
    let mut plausible: usize = 0;
    let mut i: usize = 0;
    while i < s.len()
        invariant
            i <= s@.len(),
            total as nat == ink_count(s@.take(i as int)),
            plausible as nat == plausible_count(s@.take(i as int)),
            plausible <= total <= i,
        decreases s@.len() - i,
    {
        let c = s[i];
        assert(s@.take(i + 1).drop_last() =~= s@.take(i as int));
        if !crate::text::is_whitespace(c) {
            total = total + 1;
            if is_plausible_embedded_character(c) {
                plausible = plausible + 1;
            }
        }
        i = i + 1;
    }
    assert(s@.take(i as int) =~= s@);
    total > 0 && plausible as u128 * 100 >= total as u128 * 80
}

fn clean_embedded_text(text: &str) -> (r: String)
    ensures
        r@ == cleaned_embedded_text(text@),
{
    let chars = chars_of(text);
    let lines = split_lines_exec(chars.as_slice());
    let ghost lv = lines@.map_values(|l: Vec<char>| l@);
    let mut kept: Vec<String> = Vec::new();
    let mut i: usize = 0;
    assert(strings_view(kept@) =~= clean_lines(lv.take(0)));
    while i < lines.len()
        invariant
            i <= lines@.len(),
            lv == lines@.map_values(|l: Vec<char>| l@),
            strings_view(kept@) == clean_lines(lv.take(i as int)),
        decreases lines@.len() - i,
    {
        assert(lv.take(i + 1).drop_last() =~= lv.take(i as int));
        assert(lv[i as int] == lines@[i as int]@);
        let line = trim_nul_exec(lines[i].as_slice());
        if !is_blank(line.as_slice()) && is_plausible_embedded_line(line.as_slice()) {
            push_string(&mut kept, string_of(line.as_slice()));
        }
        i = i + 1;
    }
    assert(lv.take(i as int) =~= lv);
    let r = join_strings(kept.as_slice(), "\n");
    proof {
        reveal_strlit("\n");
    }
    assert("\n"@ =~= seq!['\n']);
    r
}

fn contains_string(parts: &Vec<String>, s: &String) -> (r: bool)
    ensures
        r == strings_view(parts@).contains(s@),
{
    let mut i: usize = 0;
    while i < parts.len()
        invariant
            i <= parts@.len(),
            forall|j: int| 0 <= j < i ==> parts@[j]@ != s@,
        decreases parts@.len() - i,
    {
        if parts[i] == *s {
            assert(strings_view(parts@)[i as int] == s@);
            return true;
        }
        i = i + 1;
    }
    assert(!strings_view(parts@).contains(s@)) by {
        if strings_view(parts@).contains(s@) {
            let j = choose|j: int| 0 <= j < strings_view(parts@).len() && strings_view(parts@)[j] == s@;
            assert(parts@[j]@ == s@);
        }
    }
    false
}

fn embedded_document_text(data: &[u8]) -> (r: Option<DocumentTextPayload>)
    ensures
        match spec_embedded_document_text(data@) {
            None => r is None,
            Some(p) => r matches Some(q) && q@ == p,
        },
{
    let offsets = find_document_text_magic_offsets(data);
    let ghost offs = offsets@.map_values(|x: usize| x as int);
    proof {
        lemma_magic_offsets(data@, 0);
    }
    let mut bytes: Vec<u8> = Vec::new();
    let mut parts: Vec<String> = Vec::new();
    let mut index: usize = 0;
    assert(strings_view(parts@) =~= Seq::<Seq<char>>::empty());
    while index < offsets.len()
        invariant
            index <= offsets@.len(),
            offs == offsets@.map_values(|x: usize| x as int),
            offs == magic_offsets_from(data@, 0),
            forall|i: int| 0 <= i < offs.len() ==> 0 <= #[trigger] offs[i] && offs[i] + 8 <= data@.len(),
            forall|i: int, j: int| 0 <= i < j < offs.len() ==> #[trigger] offs[i] < #[trigger] offs[j],
            embedded_fold(data@, offs, index as int) == (EmbeddedAcc {
                bytes: bytes@,
                parts: strings_view(parts@),
            }),
        decreases offsets@.len() - index,
    {
        let start = offsets[index];
        assert(offs[index as int] == start);
        let next = if index + 1 < offsets.len() {
            assert(offs[index + 1] == offsets@[index + 1]);
            offsets[index + 1]
        } else {
            data.len()
        };
        let end = if next - start < EMBEDDED_DOCUMENT_TEXT_MAX_SPAN {
            next
        } else {
            start + EMBEDDED_DOCUMENT_TEXT_MAX_SPAN
        };
        let ghost acc0 = embedded_fold(data@, offs, index as int);
        assert(fragment_bounds(data@, offs, index as int) == (start as int, end as int));
        if end > start && end <= data.len() {
            let fragment = crate::units::slice_bytes(data, start, end);
            let extracted = extract_document_text(fragment.as_slice());
            let text = clean_embedded_text(extracted.as_str());
            let text_chars = chars_of(text.as_str());
            if !is_blank(text_chars.as_slice()) && !contains_string(&parts, &text) {
                if bytes.len() > 0 {
                    bytes.push(0u8);
                    bytes.push(0u8);
                }
                let ghost b0 = bytes@;
                let mut k: usize = 0;
                while k < fragment.len()
                    invariant
                        k <= fragment@.len(),
                        bytes@ =~= b0 + fragment@.take(k as int),
                    decreases fragment@.len() - k,
                {
                    bytes.push(fragment[k]);
                    k = k + 1;
                    assert(bytes@ =~= b0 + fragment@.take(k as int));
                }
                assert(fragment@.take(k as int) =~= fragment@);
                push_string(&mut parts, text);
                assert(bytes@ =~= (if acc0.bytes.len() > 0 { acc0.bytes + seq![0u8, 0u8] + fragment@ } else { fragment@ }));
            }
        }
        index = index + 1;
    }
    if parts.len() == 0 {
        None
    } else {
        let joined = join_strings(parts.as_slice(), "\n");
        proof {
            reveal_strlit("\n");
        }
        assert("\n"@ =~= seq!['\n']);
        Some(
            DocumentTextPayload::new(
                owned(EMBEDDED_DOCUMENT_TEXT_PATH),
                bytes,
                ParsedDocumentText::from_text(joined),
            ),
        )
    }
}

/// Whether text can be recovered from SsmgV.01 fragments embedded anywhere in `data`.
pub fn has_embedded_document_text(data: &[u8]) -> (r: bool)
    ensures
        r == spec_embedded_document_text(data@) is Some,
{
    embedded_document_text(data).is_some()
}

/// Embedded text, `NotFound` when there is none.
pub open spec fn spec_embedded_result(data: Seq<u8>) -> Result<PayloadModel, crate::error::ErrorKind> {
    match spec_embedded_document_text(data) {
        Some(p) => Ok(p),
        None => Err(crate::error::ErrorKind::NotFound),
    }
}

/// Without /DocumentText: a just-compressed /JSCompDocument is reported as `InvalidData` (its
/// LH5 content is not decoded here); otherwise the embedded text.
pub open spec fn spec_compressed_or_embedded(data: Seq<u8>) -> Result<PayloadModel, crate::error::ErrorKind> {
    match stream_read(data, COMPRESSED_DOCUMENT_PATH@) {
        Ok(c) => if spec_is_just_compressed_document(c) {
            Err(crate::error::ErrorKind::InvalidData)
        } else {
            spec_embedded_result(data)
        },
        Err(false) => Err(crate::error::ErrorKind::InvalidData),
        Err(true) => spec_embedded_result(data),
    }
}

/// The DocumentText payload of a compound file within an input limit of `max` bytes:
/// `Err(ResourceLimit)` above it; else the /DocumentText stream when present; when absent, a
/// just-compressed /JSCompDocument (not decoded here, reported as `InvalidData`), or else
/// text recovered from embedded fragments (`NotFound` when there is none); `InvalidData` when
/// a stream cannot be read.
pub open spec fn spec_read_payload(data: Seq<u8>, max: usize) -> Result<PayloadModel, crate::error::ErrorKind> {
    if data.len() > max {
        Err(crate::error::ErrorKind::ResourceLimit)
    } else {
        match stream_read(data, DOCUMENT_TEXT_PATH@) {
            Ok(stream) => Ok(payload_of(DOCUMENT_TEXT_PATH@, stream, spec_parse_document_text(stream))),
            Err(false) => Err(crate::error::ErrorKind::InvalidData),
            Err(true) => spec_compressed_or_embedded(data),
        }
    }
}

/// `r` is what `spec_read_payload` gives.
pub open spec fn payload_result_matches(
    r: Result<DocumentTextPayload, Error>,
    s: Result<PayloadModel, crate::error::ErrorKind>,
) -> bool {
    match s {
        Ok(p) => r matches Ok(q) && q@ == p,
        Err(k) => r matches Err(e) && crate::error::error_kind(e) == k,
    }
}

/// What a `NotFound` error of a payload read names: the missing DocumentText stream.
pub const MISSING_DOCUMENT_TEXT: &'static str = "stream `/DocumentText`";

/// A `NotFound` error names the missing DocumentText stream.
pub open spec fn names_document_text(e: Error) -> bool {
    e matches Error::NotFound(d) ==> d@ == MISSING_DOCUMENT_TEXT@
}

fn read_embedded_document_text(data: &[u8]) -> (r: Result<DocumentTextPayload, Error>)
    ensures
        payload_result_matches(r, spec_embedded_result(data@)),
        r matches Err(e) ==> names_document_text(e),
{
    match embedded_document_text(data) {
        Some(p) => Ok(p),
        None => Err(Error::NotFound(owned(MISSING_DOCUMENT_TEXT))),
    }
}

fn read_compressed_or_embedded_document_text(data: &[u8]) -> (r: Result<DocumentTextPayload, Error>)
    ensures
        payload_result_matches(
            r,
            spec_compressed_or_embedded(data@),
        ),
        r matches Err(e) ==> names_document_text(e),
{
    let stream = match read_cfb_stream(data, COMPRESSED_DOCUMENT_PATH) {
        Ok(stream) => stream,
        Err(Error::NotFound(_)) => return read_embedded_document_text(data),
        Err(error) => return Err(error),
    };
    if !is_just_compressed_document(stream.as_slice()) {
        return read_embedded_document_text(data);
    }
    Err(Error::InvalidData(owned("LH5-compressed document text is not decoded")))
}

/// Reads the DocumentText payload within the input limit of `budget` (see `spec_read_payload`).
pub fn read_document_text_payload_with_budget(data: &[u8], budget: &mut DecompressionBudget) -> (r: Result<
    DocumentTextPayload,
    Error,
>)
    ensures
        payload_result_matches(r, spec_read_payload(data@, old(budget).max_input_bytes())),
        *final(budget) == *old(budget),
        r matches Err(e) ==> names_document_text(e),
{
    match budget.check_input_size(data.len()) {
        Ok(()) => {},
        Err(error) => {
            return Err(error);
        },
    }
    match read_cfb_stream(data, DOCUMENT_TEXT_PATH) {
        Ok(stream) => {
            let parsed = parse_document_text(stream.as_slice());
            Ok(DocumentTextPayload::new(owned(DOCUMENT_TEXT_PATH), stream, parsed))
        },
        Err(Error::NotFound(_)) => read_compressed_or_embedded_document_text(data),
        Err(error) => Err(error),
    }
}

/// Reads the DocumentText payload within `limits` (see `spec_read_payload`).
pub fn read_document_text_payload_with_limits(data: &[u8], limits: ParseLimits) -> (r: Result<
    DocumentTextPayload,
    Error,
>)
    ensures
        payload_result_matches(r, spec_read_payload(data@, limits.max_input_bytes)),
        r matches Err(e) ==> names_document_text(e),
{
    let mut budget = limits.decompression_budget();
    read_document_text_payload_with_budget(data, &mut budget)
}

/// Reads the DocumentText payload within the default limits.
pub fn read_document_text_payload(data: &[u8]) -> (r: Result<DocumentTextPayload, Error>)
    ensures
        payload_result_matches(r, spec_read_payload(data@, crate::limits::DEFAULT_MAX_INPUT_BYTES)),
        r matches Err(e) ==> names_document_text(e),
{
    let limits = ParseLimits::default();
    read_document_text_payload_with_limits(data, limits)
}

/// The bytes of the DocumentText payload.
pub fn read_document_text_stream(data: &[u8]) -> (r: Result<Vec<u8>, Error>)
    ensures
        match spec_read_payload(data@, crate::limits::DEFAULT_MAX_INPUT_BYTES) {
            Ok(p) => r matches Ok(b) && b@ == p.bytes,
            Err(k) => r matches Err(e) && crate::error::error_kind(e) == k,
        },
        r matches Err(e) ==> names_document_text(e),
{
    match read_document_text_payload(data) {
        Ok(p) => Ok(p.bytes),
        Err(e) => Err(e),
    }
}

} // verus!
