//! What the command-line tool computes: argument checks, path escapes, and the texts the
//! `cat`, `sheets` and `export` commands print.
use vstd::prelude::*;

use crate::document_text::payload::spec_read_payload;
use crate::document_text::read_document_text_payload;
use crate::error::{Error, ErrorKind, error_kind};
use crate::export::{header_prefix, spec_to_plain_text, to_plain_text};
use crate::header_text::read_header_text;
use crate::model::parse::spec_header_of;
use crate::layout_box_text::{LAYOUT_BOX_TEXT_PATH, read_layout_box_text, spec_parse_layout_box_text};
use crate::container::stream_read;
use crate::model::{Document, DocumentSheet, DocumentView, SheetView, sheet_named};
use crate::strings::join_with;
use crate::text::{
    chars_of, decimal, decimal_chars, extend_chars, is_blank, lemma_trim_empty, push_str_chars,
    same_text, string_of, trim, trim_end, trim_end_len, trimmed,
};

verus! {

// ----------------------------------------------------------------------------------------
// Arguments

/// The usage line of the export command.
pub const EXPORT_USAGE: &'static str = "usage: rjtd export <file> [-f|--format <txt|text>] [-s|--sheet <name|index>]";

/// `Ok` of the path when one was given, else "missing path for `<command>`".
pub fn required_path(path: Option<String>, command: &str) -> (r: Result<String, String>)
    ensures
        match path {
            Some(p) => r matches Ok(q) && q@ == p@,
            None => r matches Err(m) && m@ == "missing path for `"@ + command@ + "`"@,
        },
{
    match path {
        Some(p) => Ok(p),
        None => {
            let mut m = chars_of("missing path for `");
            push_str_chars(&mut m, command);
            push_str_chars(&mut m, "`");
            Err(string_of(m.as_slice()))
        },
    }
}

/// Options of the export command: the output format and the sheet to export, if any.
#[derive(Debug, Clone, PartialEq, Eq)]
pub struct ExportOptions {
    pub format: String,
    pub sheet: Option<String>,
}

pub open spec fn opt_chars(o: Option<String>) -> Option<Seq<char>> {
    match o {
        Some(s) => Some(s@),
        None => None,
    }
}

pub open spec fn arg_views(args: Seq<String>) -> Seq<Seq<char>> {
    Seq::new(args.len(), |i: int| args[i]@)
}

pub open spec fn is_format_flag(a: Seq<char>) -> bool {
    a == "--format"@ || a == "-f"@
}

pub open spec fn is_sheet_flag(a: Seq<char>) -> bool {
    a == "--sheet"@ || a == "-s"@
}

/// Reading the export arguments from `i` on: each flag takes the next argument as its value
/// (a later one wins); a flag without value, or any other argument, is an error; the format
/// is required.
pub open spec fn options_from(
    args: Seq<Seq<char>>,
    i: int,
    format: Option<Seq<char>>,
    sheet: Option<Seq<char>>,
) -> Result<(Seq<char>, Option<Seq<char>>), Seq<char>>
    decreases args.len() - i,
{
    if i < 0 || i >= args.len() {
        match format {
            Some(f) => Ok((f, sheet)),
            None => Err(EXPORT_USAGE@),
        }
    } else if is_format_flag(args[i]) || is_sheet_flag(args[i]) {
        if i + 1 < args.len() {
            if is_format_flag(args[i]) {
                options_from(args, i + 2, Some(args[i + 1]), sheet)
            } else {
                options_from(args, i + 2, format, Some(args[i + 1]))
            }
        } else {
            Err("missing value for `"@ + args[i] + "`"@)
        }
    } else {
        Err("unexpected export argument `"@ + args[i] + "`; "@ + EXPORT_USAGE@)
    }
}

fn copy_string(s: &String) -> (r: String)
    ensures
        r@ == s@,
{
    s.as_str().to_owned()
}

/// Reads the export options from the arguments after the file path.
pub fn export_options(args: &[String]) -> (r: Result<ExportOptions, String>)
    ensures
        match options_from(arg_views(args@), 0, None, None) {
            Ok((f, s)) => r matches Ok(o) && o.format@ == f && opt_chars(o.sheet) == s,
            Err(m) => r matches Err(e) && e@ == m,
        },
{
    let ghost a = arg_views(args@);
    let mut format: Option<String> = None;
    let mut sheet: Option<String> = None;
    let mut i: usize = 0;
    while i < args.len()
        invariant
            a == arg_views(args@),
            i <= a.len(),
            options_from(a, i as int, opt_chars(format), opt_chars(sheet)) == options_from(
                a,
                0,
                None,
                None,
            ),
        decreases a.len() - i,
    {
        let arg = args[i].as_str();
        assert(arg@ == a[i as int]);
        let is_format = same_text(arg, "--format") || same_text(arg, "-f");
        let is_sheet = same_text(arg, "--sheet") || same_text(arg, "-s");
        if is_format || is_sheet {
            if i + 1 < args.len() {
                let value = copy_string(&args[i + 1]);
                assert(value@ == a[i + 1]);
                if is_format {
                    format = Some(value);
                } else {
                    sheet = Some(value);
                }
                i = i + 2;
            } else {
                let mut m = chars_of("missing value for `");
                push_str_chars(&mut m, arg);
                push_str_chars(&mut m, "`");
                return Err(string_of(m.as_slice()));
            }
        } else {
            let mut m = chars_of("unexpected export argument `");
            push_str_chars(&mut m, arg);
            push_str_chars(&mut m, "`; ");
            push_str_chars(&mut m, EXPORT_USAGE);
            return Err(string_of(m.as_slice()));
        }
    }
    match format {
        Some(f) => Ok(ExportOptions { format: f, sheet }),
        None => Err(EXPORT_USAGE.to_owned()),
    }
}

// ----------------------------------------------------------------------------------------
// Sheet positions

pub open spec fn is_ascii_digit(c: char) -> bool {
    '0' <= c && c <= '9'
}

/// The value of a string of decimal digits.
pub open spec fn digits_value(d: Seq<char>) -> nat
    decreases d.len(),
{
    if d.len() == 0 {
        0
    } else {
        digits_value(d.drop_last()) * 10 + (d.last() as nat - '0' as nat) as nat
    }
}

pub open spec fn all_digits(d: Seq<char>) -> bool {
    forall|i: int| 0 <= i < d.len() ==> is_ascii_digit(#[trigger] d[i])
}

/// A position without its leading '+', if any.
pub open spec fn unsigned_part(s: Seq<char>) -> Seq<char> {
    if s.len() > 0 && s[0] == '+' {
        s.skip(1)
    } else {
        s
    }
}

/// The digits of a position: an optional leading '+', then at least one ASCII digit.
pub open spec fn position_digits(s: Seq<char>) -> Option<Seq<char>> {
    let d = unsigned_part(s);
    if d.len() > 0 && all_digits(d) {
        Some(d)
    } else {
        None
    }
}

/// A string read as a `usize` the way `str::parse::<usize>` reads it: `Some` of the value of
/// an optional '+' and at least one ASCII digit, when it fits in `usize`.
pub open spec fn spec_parse_position(s: Seq<char>) -> Option<usize> {
    match position_digits(s) {
        Some(d) => if digits_value(d) <= usize::MAX {
            Some(digits_value(d) as usize)
        } else {
            None
        },
        None => None,
    }
}

proof fn lemma_digits_value_grows(d: Seq<char>, k: int)
    requires
        0 <= k <= d.len(),
        forall|i: int| 0 <= i < d.len() ==> is_ascii_digit(#[trigger] d[i]),
    ensures
        digits_value(d.take(k)) <= digits_value(d),
    decreases d.len() - k,
{
    if k < d.len() {
        lemma_digits_value_grows(d, k + 1);
        assert(d.take(k + 1).drop_last() =~= d.take(k));
        assert(is_ascii_digit(d[k]));
    } else {
        assert(d.take(k) =~= d);
    }
}

/// Reads a sheet position (see `spec_parse_position`).
pub fn parse_position(s: &str) -> (r: Option<usize>)
    ensures
        r == spec_parse_position(s@),
{
    let chars = chars_of(s);
    let start: usize = if chars.len() > 0 && chars[0] == '+' { 1 } else { 0 };
    let ghost d = unsigned_part(s@);
    assert(d =~= chars@.skip(start as int));
    if start >= chars.len() {
        return None;
    }
    let mut value: usize = 0;
    let mut i: usize = start;
    while i < chars.len()
        invariant
            chars@ == s@,
            start <= i <= chars@.len(),
            start < chars@.len(),
            d == chars@.skip(start as int),
            d == unsigned_part(s@),
            forall|j: int| 0 <= j < i - start ==> is_ascii_digit(#[trigger] d[j]),
            value == digits_value(d.take(i - start)),
        decreases chars@.len() - i,
    {
        let c = chars[i];
        if !('0' <= c && c <= '9') {
            assert(position_digits(s@) is None) by {
                assert(d[i - start] == c);
                assert(!is_ascii_digit(d[i - start]));
                assert(!all_digits(d));
            }
            return None;
        }
        let digit: usize = (c as u32 - '0' as u32) as usize;
        assert(d.take(i + 1 - start).drop_last() =~= d.take(i - start));
        let step = match value.checked_mul(10) {
            Some(v) => v.checked_add(digit),
            None => None,
        };
        match step {
            Some(w) => {
                value = w;
            },
            None => {
                proof {
                    assert(value * 10 + digit > usize::MAX);
                    assert(digits_value(d.take(i + 1 - start)) == value * 10 + digit);
                    if all_digits(d) {
                        lemma_digits_value_grows(d, i + 1 - start);
                        assert(position_digits(s@) == Some(d));
                        assert(digits_value(d) > usize::MAX);
                    }
                    assert(spec_parse_position(s@) is None);
                }
                return None;
            },
        }
        i = i + 1;
    }
    assert(d.take(i - start) =~= d);
    Some(value)
}

// ----------------------------------------------------------------------------------------
// Escapes

pub open spec fn is_ascii_control(c: char) -> bool {
    (c as u32) < 0x20 || c as u32 == 0x7f
}

/// Upper-case hexadecimal digit of `n` (below 16).
pub open spec fn hex_digit(n: nat) -> char {
    if n < 10 {
        (0x30 + n) as char
    } else {
        (0x41 + n - 10) as char
    }
}

/// Two upper-case hexadecimal digits.
pub open spec fn hex2(v: nat) -> Seq<char> {
    seq![hex_digit((v / 16) % 16), hex_digit(v % 16)]
}

/// Four upper-case hexadecimal digits.
pub open spec fn hex4(v: nat) -> Seq<char> {
    seq![hex_digit((v / 4096) % 16), hex_digit((v / 256) % 16), hex_digit((v / 16) % 16), hex_digit(v % 16)]
}

fn hex_digit_char(n: u32) -> (c: char)
    requires
        n < 16,
    ensures
        c == hex_digit(n as nat),
{
    if n < 10 {
        let b: u8 = 0x30 + n as u8;
        b as char
    } else {
        let b: u8 = 0x41 + (n - 10) as u8;
        b as char
    }
}

/// A path character as printed: an ASCII control character as `\xHH`.
pub open spec fn escape_path_char(c: char) -> Seq<char> {
    if is_ascii_control(c) {
        seq!['\\', 'x'] + hex2((c as u32) as nat)
    } else {
        seq![c]
    }
}

/// A text character as printed: line feed, carriage return and tab as `\n`, `\r`, `\t`,
/// another ASCII control character as `\uHHHH`.
pub open spec fn escape_text_char(c: char) -> Seq<char> {
    if c == '\n' {
        seq!['\\', 'n']
    } else if c == '\r' {
        seq!['\\', 'r']
    } else if c == '\t' {
        seq!['\\', 't']
    } else if is_ascii_control(c) {
        seq!['\\', 'u'] + hex4((c as u32) as nat)
    } else {
        seq![c]
    }
}

/// Each character of `s` replaced by its escape.
pub open spec fn escape_all(s: Seq<char>, text: bool) -> Seq<char>
    decreases s.len(),
{
    if s.len() == 0 {
        Seq::empty()
    } else {
        escape_all(s.drop_last(), text) + if text {
            escape_text_char(s.last())
        } else {
            escape_path_char(s.last())
        }
    }
}

fn escape_chars(s: &str, text: bool) -> (r: String)
    ensures
        r@ == escape_all(s@, text),
{
    let chars = chars_of(s);
    let mut out: Vec<char> = Vec::new();
    let mut i: usize = 0;
    while i < chars.len()
        invariant
            chars@ == s@,
            i <= chars@.len(),
            out@ == escape_all(chars@.take(i as int), text),
        decreases chars@.len() - i,
    {
        let c = chars[i];
        let v = c as u32;
        let control = v < 0x20 || v == 0x7f;
        let ghost before = out@;
        let ghost expected = if text { escape_text_char(c) } else { escape_path_char(c) };
        if text && c == '\n' {
            out.push('\\');
            out.push('n');
        } else if text && c == '\r' {
            out.push('\\');
            out.push('r');
        } else if text && c == '\t' {
            out.push('\\');
            out.push('t');
        } else if control {
            let hi = hex_digit_char(v / 16);
            let lo = hex_digit_char(v % 16);
            assert((v as nat / 16) % 16 == v / 16);
            assert(v as nat % 16 == v % 16);
            out.push('\\');
            if text {
                assert((v as nat / 4096) % 16 == 0);
                assert((v as nat / 256) % 16 == 0);
                assert(hex_digit(0) == '0');
                out.push('u');
                out.push('0');
                out.push('0');
                out.push(hi);
                out.push(lo);
                assert(expected =~= seq!['\\', 'u', '0', '0', hi, lo]);
            } else {
                out.push('x');
                out.push(hi);
                out.push(lo);
                assert(expected =~= seq!['\\', 'x', hi, lo]);
            }
        } else {
            out.push(c);
        }
        assert(out@ =~= before + expected);
        assert(chars@.take(i + 1).drop_last() =~= chars@.take(i as int));
        assert(out@ =~= escape_all(chars@.take(i + 1), text));
        i = i + 1;
    }
    assert(chars@.take(i as int) =~= chars@);
    string_of(out.as_slice())
}

/// A path with ASCII control characters written as `\xHH`.
pub fn escaped_path(path: &str) -> (r: String)
    ensures
        r@ == escape_all(path@, false),
{
    escape_chars(path, false)
}

/// A text with line breaks, tabs and other ASCII control characters escaped.
pub fn escaped_text(text: &str) -> (r: String)
    ensures
        r@ == escape_all(text@, true),
{
    escape_chars(text, true)
}

/// Value of a hexadecimal digit (either case), as `char::to_digit(16)` gives it.
pub open spec fn hex_value(c: char) -> Option<u32> {
    if '0' <= c && c <= '9' {
        Some((c as u32 - '0' as u32) as u32)
    } else if 'a' <= c && c <= 'f' {
        Some((c as u32 - 'a' as u32 + 10) as u32)
    } else if 'A' <= c && c <= 'F' {
        Some((c as u32 - 'A' as u32 + 10) as u32)
    } else {
        None
    }
}

fn hex_value_of(c: char) -> (r: Option<u32>)
    ensures
        r == hex_value(c),
{
    let v = c as u32;
    if '0' <= c && c <= '9' {
        Some(v - '0' as u32)
    } else if 'a' <= c && c <= 'f' {
        Some(v - 'a' as u32 + 10)
    } else if 'A' <= c && c <= 'F' {
        Some(v - 'A' as u32 + 10)
    } else {
        None
    }
}

pub open spec fn invalid_digit_message(c: char) -> Seq<char> {
    "invalid hex escape digit: "@.push(c)
}

/// The byte written by two hexadecimal digits, or which digit is invalid.
pub open spec fn spec_hex_pair(high: char, low: char) -> Result<u8, Seq<char>> {
    match hex_value(high) {
        None => Err(invalid_digit_message(high)),
        Some(h) => match hex_value(low) {
            None => Err(invalid_digit_message(low)),
            Some(l) => Ok((h * 16 + l) as u8),
        },
    }
}

fn invalid_digit(c: char) -> (r: String)
    ensures
        r@ == invalid_digit_message(c),
{
    let mut m = chars_of("invalid hex escape digit: ");
    m.push(c);
    string_of(m.as_slice())
}

/// The byte written by two hexadecimal digits.
pub fn hex_pair(high: char, low: char) -> (r: Result<u8, String>)
    ensures
        match spec_hex_pair(high, low) {
            Ok(b) => r == Ok::<u8, String>(b),
            Err(m) => r matches Err(e) && e@ == m,
        },
{
    let h = match hex_value_of(high) {
        Some(h) => h,
        None => {
            return Err(invalid_digit(high));
        },
    };
    let l = match hex_value_of(low) {
        Some(l) => l,
        None => {
            return Err(invalid_digit(low));
        },
    };
    Ok((h * 16 + l) as u8)
}

/// Message for a `\x` escape cut short.
pub const INCOMPLETE_ESCAPE: &'static str = "incomplete \\x escape in stream path";

pub open spec fn prepend(p: Seq<char>, r: Result<Seq<char>, Seq<char>>) -> Result<Seq<char>, Seq<char>> {
    match r {
        Ok(t) => Ok(p + t),
        Err(m) => Err(m),
    }
}

/// Undoing path escapes from `i` on: `\xHH` is the character of that byte; a backslash
/// before anything else, or at the end, stays as it is.
pub open spec fn unescape_from(s: Seq<char>, i: int) -> Result<Seq<char>, Seq<char>>
    decreases s.len() - i,
{
    if i < 0 || i >= s.len() {
        Ok(Seq::empty())
    } else if s[i] != '\\' {
        prepend(seq![s[i]], unescape_from(s, i + 1))
    } else if i + 1 >= s.len() {
        Ok(seq!['\\'])
    } else if s[i + 1] == 'x' {
        if i + 3 >= s.len() {
            Err(INCOMPLETE_ESCAPE@)
        } else {
            match spec_hex_pair(s[i + 2], s[i + 3]) {
                Ok(b) => prepend(seq![b as char], unescape_from(s, i + 4)),
                Err(m) => Err(m),
            }
        }
    } else {
        prepend(seq!['\\', s[i + 1]], unescape_from(s, i + 2))
    }
}

/// A stream path given with `\xHH` escapes, as the characters it stands for.
pub fn unescaped_path(path: &str) -> (r: Result<String, String>)
    ensures
        match unescape_from(path@, 0) {
            Ok(t) => r matches Ok(o) && o@ == t,
            Err(m) => r matches Err(e) && e@ == m,
        },
{
    let s = chars_of(path);
    let mut out: Vec<char> = Vec::new();
    let mut i: usize = 0;
    while i < s.len()
        invariant
            s@ == path@,
            i <= s@.len(),
            prepend(out@, unescape_from(s@, i as int)) == unescape_from(s@, 0),
        decreases s@.len() - i,
    {
        let ghost before = out@;
        let c = s[i];
        if c != '\\' {
            out.push(c);
            i = i + 1;
            proof {
                match unescape_from(s@, i as int) {
                    Ok(t) => assert(before + (seq![c] + t) =~= before.push(c) + t),
                    Err(_) => {},
                }
            }
        } else if i + 1 >= s.len() {
            out.push('\\');
            assert(unescape_from(s@, (i + 1) as int) == Ok::<Seq<char>, Seq<char>>(Seq::empty()));
            i = i + 1;
            assert(out@ =~= before + seq!['\\']);
            assert(out@ + Seq::<char>::empty() =~= out@);
        } else if s[i + 1] == 'x' {
            if s.len() - i <= 3 {
                return Err(INCOMPLETE_ESCAPE.to_owned());
            }
            let b = match hex_pair(s[i + 2], s[i + 3]) {
                Ok(b) => b,
                Err(m) => {
                    return Err(m);
                },
            };
            out.push(b as char);
            i = i + 4;
            proof {
                match unescape_from(s@, i as int) {
                    Ok(t) => assert(before + (seq![b as char] + t) =~= before.push(b as char) + t),
                    Err(_) => {},
                }
            }
        } else {
            let n = s[i + 1];
            out.push('\\');
            out.push(n);
            i = i + 2;
            proof {
                match unescape_from(s@, i as int) {
                    Ok(t) => assert(before + (seq!['\\', n] + t) =~= out@ + t),
                    Err(_) => {},
                }
            }
        }
    }
    proof {
        assert(out@ + Seq::<char>::empty() =~= out@);
    }
    Ok(string_of(out.as_slice()))
}

// ----------------------------------------------------------------------------------------
// Command output

pub open spec fn is_text_format(f: Seq<char>) -> bool {
    f == "txt"@ || f == "text"@
}

/// A sheet exported alone: its text, or with footnotes its text without trailing white space,
/// a blank line and the trimmed footnotes.
pub open spec fn sheet_export_text(s: SheetView) -> Seq<char> {
    match s.footnote_text {
        Some(f) => trim_end(s.text) + seq!['\n', '\n'] + trim(f),
        None => s.text,
    }
}

/// Exporting one sheet with footnotes `f` prints the sheet's own text first (trailing white
/// space removed), then one blank line, then the trimmed footnotes, and nothing else; without
/// footnotes it prints the sheet's text unchanged.
pub proof fn lemma_sheet_export_body_then_footnotes(s: SheetView)
    ensures
        ({
            let r = sheet_export_text(s);
            match s.footnote_text {
                Some(f) => {
                    let n = trim_end(s.text).len() as int;
                    &&& r.len() == n + 2 + trim(f).len()
                    &&& r.take(n) == trim_end(s.text)
                    &&& r[n] == '\n'
                    &&& r[n + 1] == '\n'
                    &&& r.skip(n + 2) == trim(f)
                },
                None => r == s.text,
            }
        }),
{
    match s.footnote_text {
        Some(f) => {
            let r = sheet_export_text(s);
            let n = trim_end(s.text).len() as int;
            assert(r.take(n) =~= trim_end(s.text));
            assert(r.skip(n + 2) =~= trim(f));
        },
        None => {},
    }
}

/// The sheet a sheet argument names: a position when it reads as one, else a name.
pub open spec fn selected_sheet(ss: Seq<SheetView>, spec: Seq<char>) -> Option<int> {
    match spec_parse_position(spec) {
        Some(k) => if k < ss.len() {
            Some(k as int)
        } else {
            None
        },
        None => sheet_named(ss, spec, 0),
    }
}

/// What the export command prints for a document, or its error message.
pub open spec fn spec_export_text(d: DocumentView, format: Seq<char>, sheet: Option<Seq<char>>) -> Result<
    Seq<char>,
    Seq<char>,
> {
    match sheet {
        Some(name) => match selected_sheet(d.sheets, name) {
            None => Err("sheet `"@ + name + "` not found"@),
            Some(k) => if is_text_format(format) {
                Ok(sheet_export_text(d.sheets[k]))
            } else {
                Err(
                    "exporting specific sheet with format `"@ + format
                        + "` is not supported yet (use text)"@,
                )
            },
        },
        None => if is_text_format(format) {
            Ok(spec_to_plain_text(d))
        } else {
            Err("unsupported export format: "@ + format)
        },
    }
}

fn message3(a: &str, b: &str, c: &str) -> (r: String)
    ensures
        r@ == a@ + b@ + c@,
{
    let mut m = chars_of(a);
    push_str_chars(&mut m, b);
    push_str_chars(&mut m, c);
    string_of(m.as_slice())
}

fn sheet_text_for_export(sheet: &DocumentSheet) -> (r: String)
    ensures
        r@ == sheet_export_text(sheet@),
{
    match sheet.footnote_text() {
        Some(f) => {
            let text = chars_of(sheet.text());
            let end = trim_end_len(text.as_slice());
            let mut out = crate::header_text::slice_prefix(text.as_slice(), end);
            assert(out@ =~= trim_end(sheet@.text));
            out.push('\n');
            out.push('\n');
            let t = trimmed(chars_of(f).as_slice());
            extend_chars(&mut out, t.as_slice());
            assert(out@ =~= sheet_export_text(sheet@));
            string_of(out.as_slice())
        },
        None => sheet.text().to_owned(),
    }
}

/// What the export command prints (see `spec_export_text`).
pub fn export_text(document: &Document, options: &ExportOptions) -> (r: Result<String, String>)
    ensures
        match spec_export_text(document@, options.format@, opt_chars(options.sheet)) {
            Ok(t) => r matches Ok(o) && o@ == t,
            Err(m) => r matches Err(e) && e@ == m,
        },
{
    let format = options.format.as_str();
    let text_format = same_text(format, "txt") || same_text(format, "text");
    match &options.sheet {
        Some(name) => {
            let sheets = document.sheets();
            let found = match parse_position(name.as_str()) {
                Some(k) => if k < sheets.len() {
                    assert(sheets@[k as int]@ == document@.sheets[k as int]);
                    Some(&sheets[k])
                } else {
                    None
                },
                None => document.sheet_by_name(name.as_str()),
            };
            match found {
                None => Err(message3("sheet `", name.as_str(), "` not found")),
                Some(sheet) => {
                    if text_format {
                        Ok(sheet_text_for_export(sheet))
                    } else {
                        Err(
                            message3(
                                "exporting specific sheet with format `",
                                format,
                                "` is not supported yet (use text)",
                            ),
                        )
                    }
                },
            }
        },
        None => {
            if text_format {
                Ok(to_plain_text(document))
            } else {
                proof {
                    reveal_strlit("");
                }
                assert(""@ =~= Seq::<char>::empty());
                let m = message3("unsupported export format: ", format, "");
                assert(m@ =~= "unsupported export format: "@ + format@);
                Err(m)
            }
        },
    }
}

/// Note printed before the text of layout boxes.
pub const LAYOUT_BOX_NOTE: &'static str = "\u{203b}\u{67a0}\u{5185}\u{30c6}\u{30ad}\u{30b9}\u{30c8}";

/// The layout-box text the cat command adds after the body: a line break, the note on its
/// own line, then the boxes' text; nothing when the stream is absent, unreadable, malformed
/// or blank.
pub open spec fn box_addition(data: Seq<u8>) -> Seq<char> {
    match stream_read(data, LAYOUT_BOX_TEXT_PATH@) {
        Ok(stream) => match spec_parse_layout_box_text(stream) {
            Some(blocks) => {
                let t = join_with(blocks, seq!['\n']);
                if trim(t).len() > 0 {
                    seq!['\n'] + LAYOUT_BOX_NOTE@ + seq!['\n'] + t
                } else {
                    Seq::empty()
                }
            },
            None => Seq::empty(),
        },
        Err(_) => Seq::empty(),
    }
}

/// What the cat command prints: the header and footer text with a blank line (when the
/// /Header stream holds some), the DocumentText plain text, then the layout-box addition;
/// it fails as reading the payload fails.
pub open spec fn spec_cat_text(data: Seq<u8>) -> Result<Seq<char>, ErrorKind> {
    match spec_read_payload(data, crate::limits::DEFAULT_MAX_INPUT_BYTES) {
        Ok(p) => Ok(header_prefix(spec_header_of(data)) + p.text + box_addition(data)),
        Err(k) => Err(k),
    }
}

/// What the cat command prints for a compound file (see `spec_cat_text`).
pub fn cat_text(data: &[u8]) -> (r: Result<String, Error>)
    ensures
        match spec_cat_text(data@) {
            Ok(t) => r matches Ok(o) && o@ == t,
            Err(k) => r matches Err(e) && error_kind(e) == k,
        },
        r matches Err(e) ==> crate::document_text::payload::names_document_text(e),
{
    let payload = match read_document_text_payload(data) {
        Ok(p) => p,
        Err(e) => {
            return Err(e);
        },
    };
    let mut out: Vec<char> = Vec::new();
    match read_header_text(data) {
        Ok(Some(header)) => {
            let text = header.text();
            let chars = chars_of(text.as_str());
            proof {
                lemma_trim_empty(chars@);
            }
            if !is_blank(chars.as_slice()) {
                extend_chars(&mut out, chars.as_slice());
                out.push('\n');
                out.push('\n');
            }
        },
        _ => {},
    }
    assert(out@ =~= header_prefix(spec_header_of(data@)));
    push_str_chars(&mut out, payload.text());
    let ghost body = out@;
    match read_layout_box_text(data) {
        Ok(Some(boxes)) => {
            let text = boxes.text();
            let chars = chars_of(text.as_str());
            proof {
                lemma_trim_empty(chars@);
            }
            if !is_blank(chars.as_slice()) {
                out.push('\n');
                push_str_chars(&mut out, LAYOUT_BOX_NOTE);
                out.push('\n');
                extend_chars(&mut out, chars.as_slice());
                assert(out@ =~= body + box_addition(data@));
            } else {
                assert(body + box_addition(data@) =~= body);
            }
        },
        _ => {
            assert(body + box_addition(data@) =~= body);
        },
    }
    Ok(string_of(out.as_slice()))
}

/// The report line of one sheet: position, name, storage path, source path or "-",
/// separated by tabs.
pub open spec fn sheet_line(s: SheetView) -> Seq<char> {
    "sheet\t"@ + decimal(s.index as nat) + "\t"@ + s.name + "\t"@ + s.storage_path + "\t"@
        + match s.original_path {
        Some(p) => p,
        None => "-"@,
    }
}

/// The lines the sheets command prints: the sheet count, then one line per sheet.
pub open spec fn spec_sheet_report(d: DocumentView) -> Seq<Seq<char>> {
    seq!["sheets\t"@ + decimal(d.sheets.len())] + Seq::new(
        d.sheets.len(),
        |i: int| sheet_line(d.sheets[i]),
    )
}

fn sheet_report_line(sheet: &DocumentSheet) -> (r: String)
    ensures
        r@ == sheet_line(sheet@),
{
    let mut out = chars_of("sheet\t");
    let n = decimal_chars(sheet.index());
    extend_chars(&mut out, n.as_slice());
    push_str_chars(&mut out, "\t");
    push_str_chars(&mut out, sheet.name());
    push_str_chars(&mut out, "\t");
    push_str_chars(&mut out, sheet.storage_path());
    push_str_chars(&mut out, "\t");
    match sheet.original_path() {
        Some(p) => push_str_chars(&mut out, p),
        None => push_str_chars(&mut out, "-"),
    }
    string_of(out.as_slice())
}

/// The lines the sheets command prints (see `spec_sheet_report`).
pub fn sheet_report(document: &Document) -> (r: Vec<String>)
    ensures
        crate::strings::strings_view(r@) == spec_sheet_report(document@),
{
    let sheets = document.sheets();
    let ghost ss = document@.sheets;
    let mut lines: Vec<String> = Vec::new();
    let mut first = chars_of("sheets\t");
    let n = decimal_chars(sheets.len());
    extend_chars(&mut first, n.as_slice());
    crate::strings::push_string(&mut lines, string_of(first.as_slice()));
    let mut i: usize = 0;
    while i < sheets.len()
        invariant
            ss == crate::model::sheet_views(sheets@),
            ss == document@.sheets,
            i <= ss.len(),
            crate::strings::strings_view(lines@) =~= seq!["sheets\t"@ + decimal(ss.len())] + Seq::new(
                i as nat,
                |k: int| sheet_line(ss[k]),
            ),
        decreases ss.len() - i,
    {
        let line = sheet_report_line(&sheets[i]);
        crate::strings::push_string(&mut lines, line);
        i = i + 1;
    }
    lines
}

// ----------------------------------------------------------------------------------------
// Escaping and unescaping a path

proof fn lemma_escape_all_first(p: Seq<char>, text: bool)
    requires
        p.len() > 0,
    ensures
        escape_all(p, text) == (if text {
            escape_text_char(p[0])
        } else {
            escape_path_char(p[0])
        }) + escape_all(p.drop_first(), text),
    decreases p.len(),
{
    if p.len() == 1 {
        assert(p.drop_last() =~= Seq::<char>::empty());
        assert(p.drop_first() =~= Seq::<char>::empty());
        reveal_with_fuel(escape_all, 2);
    } else {
        lemma_escape_all_first(p.drop_last(), text);
        assert(p.drop_last().drop_first() =~= p.drop_first().drop_last());
        assert(p.drop_first().last() == p.last());
        assert(p.drop_last()[0] == p[0]);
    }
}

proof fn lemma_unescape_shift(x: Seq<char>, y: Seq<char>, j: int)
    requires
        0 <= j,
    ensures
        unescape_from(x + y, x.len() + j) == unescape_from(y, j),
    decreases y.len() - j,
{
    let s = x + y;
    let i = x.len() + j;
    if j < y.len() {
        assert(s[i] == y[j]);
        if j + 1 < y.len() {
            assert(s[i + 1] == y[j + 1]);
        }
        if j + 3 < y.len() {
            assert(s[i + 2] == y[j + 2]);
            assert(s[i + 3] == y[j + 3]);
        }
        lemma_unescape_shift(x, y, j + 1);
        if j + 2 <= y.len() {
            lemma_unescape_shift(x, y, j + 2);
        }
        if j + 4 <= y.len() {
            lemma_unescape_shift(x, y, j + 4);
        }
    }
}

proof fn lemma_hex_digit_value(n: nat)
    requires
        n < 16,
    ensures
        hex_value(hex_digit(n)) == Some(n as u32),
{
}

/// Reading back a printed path: for a path without backslashes, undoing the escapes of
/// `escaped_path` gives the path again.
pub proof fn lemma_unescape_escaped_path(p: Seq<char>)
    requires
        forall|k: int| 0 <= k < p.len() ==> p[k] != '\\',
    ensures
        unescape_from(escape_all(p, false), 0) == Ok::<Seq<char>, Seq<char>>(p),
    decreases p.len(),
{
    if p.len() == 0 {
        assert(escape_all(p, false) =~= Seq::<char>::empty());
        assert(p =~= Seq::<char>::empty());
    } else {
        let c = p[0];
        let rest = p.drop_first();
        lemma_escape_all_first(p, false);
        assert forall|k: int| 0 <= k < rest.len() implies rest[k] != '\\' by {
            assert(rest[k] == p[k + 1]);
        }
        lemma_unescape_escaped_path(rest);
        let e = escape_path_char(c);
        let tail = escape_all(rest, false);
        let s = e + tail;
        lemma_unescape_shift(e, tail, 0);
        if is_ascii_control(c) {
            let v = c as u32;
            lemma_hex_digit_value((v as nat / 16) % 16);
            lemma_hex_digit_value(v as nat % 16);
            assert(s[0] == '\\');
            assert(s[1] == 'x');
            assert(s[2] == hex_digit((v as nat / 16) % 16));
            assert(s[3] == hex_digit(v as nat % 16));
            assert((v / 16) * 16 + v % 16 == v);
            assert(spec_hex_pair(s[2], s[3]) == Ok::<u8, Seq<char>>(v as u8));
            assert(v < 0x80);
            assert((v as u8) as u32 == v);
            vstd::utf8::char_u32_cast(c, v);
            assert(v as char == c);
            assert((v as u8) as char == c);
            assert(e.len() == 4);
            assert(unescape_from(s, 0) == prepend(seq![c], unescape_from(s, 4)));
            assert(seq![c] + rest =~= p);
        } else {
            assert(s[0] == c);
            assert(e.len() == 1);
            assert(unescape_from(s, 0) == prepend(seq![c], unescape_from(s, 1)));
            assert(seq![c] + rest =~= p);
        }
    }
}

} // verus!
