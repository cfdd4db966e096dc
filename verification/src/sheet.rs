//! Sheets of a multi-sheet document: /ObjectSheets/SheetInfo and the DocItemInfo streams.
use vstd::prelude::*;

use crate::container::{stream_read, read_cfb_stream};
use crate::error::{Error, owned};
use crate::strings::{push_string, strings_view};
use crate::text::{chars_of, decimal, decimal_chars, extend_chars, string_of};
use crate::utf16::{
    decode_utf16, le_u32, le_units, read_le_u32, read_le_units, utf16_decode,
};

verus! {

pub const OBJECT_SHEETS_SHEET_INFO_PATH: &'static str = "/ObjectSheets/SheetInfo";

pub const DOC_SHEET_DOC_ITEM_INFO_PATH: &'static str = "/ObjectSheets/DocSheet/DocItemInfo";

pub const DOC_SHEET_DOC_ITEM_INFO2_PATH: &'static str = "/ObjectSheets/DocSheet/DocItemInfo2";

pub const DOC_SHEET_STORAGE_PREFIX: &'static str = "/ObjectSheets/DocSheet/DOCS_";

/// Name given to the first sheet when SheetInfo names none.
pub const DEFAULT_ROOT_SHEET_NAME: &'static str = "\u{30bf}\u{30a4}\u{30c8}\u{30eb}";

/// Bytes that follow each DocItemInfo entry.
pub const DOC_ITEM_TRAILER_LEN: usize = 26;

/// A sheet: its position, its display name, its storage, and the file it came from.
pub struct SheetModel {
    pub index: int,
    pub name: Seq<char>,
    pub storage_path: Seq<char>,
    pub original_path: Option<Seq<char>>,
}

#[derive(Debug, Clone, PartialEq, Eq)]
pub struct SheetItem {
    pub index: usize,
    pub name: String,
    pub storage_path: String,
    pub original_path: Option<String>,
}

pub type DocumentSheetInfo = SheetItem;

/// Character view of an optional string.
pub open spec fn opt_view(o: Option<String>) -> Option<Seq<char>> {
    match o {
        Some(s) => Some(s@),
        None => None,
    }
}

impl View for SheetItem {
    type V = SheetModel;

    open spec fn view(&self) -> SheetModel {
        SheetModel {
            index: self.index as int,
            name: self.name@,
            storage_path: self.storage_path@,
            original_path: opt_view(self.original_path),
        }
    }
}

/// Sheet models of a sequence of sheets.
pub open spec fn sheet_views(v: Seq<SheetItem>) -> Seq<SheetModel> {
    v.map_values(|s: SheetItem| s@)
}

/// Number of trailing '/' characters.
pub open spec fn trailing_slashes(s: Seq<char>) -> nat
    decreases s.len(),
{
    if s.len() > 0 && s.last() == '/' {
        1 + trailing_slashes(s.drop_last())
    } else {
        0
    }
}

proof fn lemma_trailing_slashes(s: Seq<char>)
    ensures
        trailing_slashes(s) <= s.len(),
    decreases s.len(),
{
    if s.len() > 0 && s.last() == '/' {
        lemma_trailing_slashes(s.drop_last());
    }
}

/// The path of stream `leaf` (such as "/DocumentText") of a sheet stored at `storage`: the root
/// stream when the storage is empty or "/", else the storage without trailing '/' then `leaf`.
pub open spec fn sheet_stream_path(storage: Seq<char>, leaf: Seq<char>) -> Seq<char> {
    if storage.len() == 0 || storage == seq!['/'] {
        leaf
    } else {
        storage.take(storage.len() - trailing_slashes(storage)) + leaf
    }
}

fn sheet_stream_path_exec(storage: &str, leaf: &str) -> (r: String)
    ensures
        r@ == sheet_stream_path(storage@, leaf@),
{
    let s = chars_of(storage);
    if s.len() == 0 || (s.len() == 1 && s[0] == '/') {
        assert(s.len() == 1 ==> s@ =~= seq![s@[0]]);
        return owned(leaf);
    }
    proof {
        lemma_trailing_slashes(s@);
    }
    let mut n = s.len();
    assert(s@.take(n as int) =~= s@);
    while n > 0 && s[n - 1] == '/'
        invariant
            n <= s@.len(),
            trailing_slashes(s@.take(n as int)) + (s@.len() - n) == trailing_slashes(s@),
        decreases n,
    {
        assert(s@.take(n as int).drop_last() =~= s@.take(n - 1));
        n = n - 1;
    }
    assert(trailing_slashes(s@.take(n as int)) == 0);
    let mut out = crate::header_text::slice_prefix(s.as_slice(), n);
    let l = chars_of(leaf);
    extend_chars(&mut out, l.as_slice());
    assert(!(s@ =~= seq!['/']) ==> s@ != seq!['/']);
    string_of(out.as_slice())
}

impl SheetItem {
    pub fn new(index: usize, name: &str, storage_path: &str, original_path: Option<String>) -> (r: Self)
        ensures
            r@ == (SheetModel {
                index: index as int,
                name: name@,
                storage_path: storage_path@,
                original_path: opt_view(original_path),
            }),
    {
        SheetItem { index, name: name.to_owned(), storage_path: storage_path.to_owned(), original_path }
    }

    pub fn index(&self) -> (r: usize)
        ensures
            r == self.index,
    {
        self.index
    }

    pub fn name(&self) -> (r: &str)
        ensures
            r@ == self.name@,
    {
        self.name.as_str()
    }

    pub fn storage_path(&self) -> (r: &str)
        ensures
            r@ == self.storage_path@,
    {
        self.storage_path.as_str()
    }

    pub fn original_path(&self) -> (r: Option<&str>)
        ensures
            match self.original_path {
                Some(p) => r matches Some(q) && q@ == p@,
                None => r is None,
            },
    {
        match &self.original_path {
            Some(p) => Some(p.as_str()),
            None => None,
        }
    }

    /// Path of this sheet's DocumentText stream.
    pub fn document_text_path(&self) -> (r: String)
        ensures
            r@ == sheet_stream_path(self.storage_path@, "/DocumentText"@),
    {
        sheet_stream_path_exec(self.storage_path.as_str(), "/DocumentText")
    }

    /// Path of this sheet's Footnote stream.
    pub fn footnote_path(&self) -> (r: String)
        ensures
            r@ == sheet_stream_path(self.storage_path@, "/Footnote"@),
    {
        sheet_stream_path_exec(self.storage_path.as_str(), "/Footnote")
    }
}

/// The candidate name at `off`: a u32 length `n` in 1..=64, then `n` units fitting in `data`,
/// all in `0x20..0xd800`.
pub open spec fn root_name_at(data: Seq<u8>, off: int) -> bool {
    let n = le_u32(data, off);
    &&& off + 4 <= data.len()
    &&& 1 <= n <= 64
    &&& off + 4 + 2 * n <= data.len()
    &&& forall|i: int|
        0 <= i < n ==> 0x20 <= #[trigger] le_units(data, off + 4, n)[i] && le_units(
            data,
            off + 4,
            n,
        )[i] < 0xd800
}

/// Characters of the name at `off`.
pub open spec fn root_name_chars(data: Seq<u8>, off: int) -> Seq<char> {
    let n = le_u32(data, off);
    le_units(data, off + 4, n).map_values(|c: u16| c as char)
}

/// Searching down from `off` in steps of two bytes, the first candidate name.
pub open spec fn root_name_from(data: Seq<u8>, off: int) -> Option<Seq<char>>
    decreases off,
{
    if off < 4 {
        None
    } else if root_name_at(data, off) {
        Some(root_name_chars(data, off))
    } else {
        root_name_from(data, off - 2)
    }
}

/// Name of the first sheet recorded in SheetInfo: the last candidate found searching from 8
/// bytes before the end down to offset 4.
pub open spec fn spec_sheet_info_root_name(data: Seq<u8>) -> Option<Seq<char>> {
    if data.len() < 12 {
        None
    } else {
        root_name_from(data, data.len() - 8)
    }
}

fn root_name_at_exec(data: &[u8], off: usize) -> (r: Option<Vec<char>>)
    requires
        off + 4 <= data@.len(),
    ensures
        r is Some <==> root_name_at(data@, off as int),
        r matches Some(v) ==> v@ == root_name_chars(data@, off as int),
{
    let n = read_le_u32(data, off) as usize;
    if n < 1 || n > 64 || 2 * n > data.len() - off - 4 {
        return None;
    }
    let units = read_le_units(data, off + 4, n);
    let mut out: Vec<char> = Vec::new();
    let mut i: usize = 0;
    while i < n
        invariant
            i <= n <= 64,
            1 <= n,
            n as int == le_u32(data@, off as int),
            off + 4 + 2 * n <= data@.len(),
            units@ == le_units(data@, off + 4, n as int),
            forall|j: int| 0 <= j < i ==> 0x20 <= #[trigger] units@[j] && units@[j] < 0xd800,
            out@ =~= units@.take(i as int).map_values(|c: u16| c as char),
        decreases n - i,
    {
        let c = units[i];
        if c < 0x20 || c >= 0xd800 {
            assert(le_units(data@, off + 4, n as int)[i as int] == c);
            return None;
        }
        out.push(crate::document_text::scan::unit_to_char(c));
        i = i + 1;
        assert(out@ =~= units@.take(i as int).map_values(|c: u16| c as char));
    }
    assert(units@.take(n as int) =~= units@);
    Some(out)
}

/// Name of the first sheet recorded in a SheetInfo stream (see `spec_sheet_info_root_name`).
pub fn parse_sheet_info_root_name(data: &[u8]) -> (r: Option<String>)
    ensures
        match spec_sheet_info_root_name(data@) {
            None => r is None,
            Some(n) => r matches Some(s) && s@ == n,
        },
{
    if data.len() < 12 {
        return None;
    }
    let mut off = data.len() - 8;
    while off >= 4
        invariant
            off + 8 <= data@.len(),
            off % 2 == (data@.len() - 8) % 2,
            root_name_from(data@, off as int) == root_name_from(data@, data@.len() - 8),
        decreases off,
    {
        match root_name_at_exec(data, off) {
            Some(name) => {
                return Some(string_of(name.as_slice()));
            },
            None => {},
        }
        off = off - 2;
    }
    None
}

/// DocItemInfo entries `k..count` from byte `off`, after `acc`: per entry 4 bytes, a u32 name
/// length `n`, `n` UTF-16 units, a u32 storage number, then a 26-byte trailer (which only the
/// last entry may lack). `None` when an entry is truncated or its name is not valid UTF-16.
pub open spec fn doc_items(data: Seq<u8>, k: int, count: int, off: int, acc: Seq<(Seq<char>, u32)>) -> Option<
    Seq<(Seq<char>, u32)>,
>
    decreases count - k,
{
    if k >= count || off < 0 {
        Some(acc)
    } else if off + 8 > data.len() {
        None
    } else {
        let n = le_u32(data, off + 4);
        let name_off = off + 8;
        if name_off + 2 * n + 4 > data.len() {
            None
        } else {
            match utf16_decode(le_units(data, name_off, n)) {
                None => None,
                Some(name) => {
                    let id_off = name_off + 2 * n;
                    let id = le_u32(data, id_off) as u32;
                    let after = id_off + 4;
                    if after + 26 > data.len() && k + 1 < count {
                        None
                    } else {
                        let next = if after + 26 < data.len() {
                            after + 26
                        } else {
                            data.len() as int
                        };
                        doc_items(data, k + 1, count, next, acc.push((name, id)))
                    }
                },
            }
        }
    }
}

/// Entries of a DocItemInfo stream: a u32 count, then the entries (see `doc_items`).
pub open spec fn spec_doc_item_info(data: Seq<u8>) -> Option<Seq<(Seq<char>, u32)>> {
    if data.len() < 4 {
        None
    } else {
        doc_items(data, 0, le_u32(data, 0), 4, Seq::empty())
    }
}

/// Views of parsed DocItemInfo entries.
pub open spec fn item_views(v: Seq<(String, u32)>) -> Seq<(Seq<char>, u32)> {
    v.map_values(|e: (String, u32)| (e.0@, e.1))
}

/// Parses a DocItemInfo stream into (sheet name, storage number) pairs.
pub fn parse_doc_item_info(data: &[u8]) -> (r: Result<Vec<(String, u32)>, Error>)
    ensures
        match spec_doc_item_info(data@) {
            None => r matches Err(Error::InvalidData(_)),
            Some(items) => r matches Ok(v) && item_views(v@) == items,
        },
{
    if data.len() < 4 {
        return Err(Error::InvalidData(owned("DocItemInfo stream too short")));
    }
    let dl = data.len();
    let count = read_le_u32(data, 0) as usize;
    let mut off: usize = 4;
    let mut results: Vec<(String, u32)> = Vec::new();
    let mut k: usize = 0;
    assert(item_views(results@) =~= Seq::<(Seq<char>, u32)>::empty());
    let ghost goal = doc_items(data@, 0, count as int, 4, Seq::empty());
    while k < count
        invariant
            dl == data@.len(),
            off <= dl,
            k <= count,
            count as int == le_u32(data@, 0),
            spec_doc_item_info(data@) == goal,
            doc_items(data@, k as int, count as int, off as int, item_views(results@)) == goal,
        decreases count - k,
    {
        if off > dl || dl - off < 8 {
            return Err(Error::InvalidData(owned("DocItemInfo entry header truncated")));
        }
        let n = read_le_u32(data, off + 4) as usize;
        let name_off = off + 8;
        if n > (dl - name_off) / 2 || 2 * n + 4 > dl - name_off {
            return Err(Error::InvalidData(owned("DocItemInfo name truncated")));
        }
        let units = read_le_units(data, name_off, n);
        let name = match decode_utf16(units.as_slice()) {
            Some(chars) => string_of(chars.as_slice()),
            None => {
                return Err(Error::InvalidData(owned("DocItemInfo name invalid UTF-16")));
            },
        };
        let id_off = name_off + 2 * n;
        let id = read_le_u32(data, id_off);
        let after = id_off + 4;
        if dl - after < DOC_ITEM_TRAILER_LEN && k + 1 < count {
            return Err(Error::InvalidData(owned("DocItemInfo trailer truncated")));
        }
        off = if dl - after > DOC_ITEM_TRAILER_LEN {
            after + DOC_ITEM_TRAILER_LEN
        } else {
            dl
        };
        let ghost prev = item_views(results@);
        let ghost nv = name@;
        results.push((name, id));
        assert(item_views(results@) =~= prev.push((nv, id)));
        k = k + 1;
    }
    Ok(results)
}

/// Whether `s` contains '\\', '/' or ".jtd".
pub open spec fn looks_like_path(s: Seq<char>) -> bool {
    s.contains('\\') || s.contains('/') || exists|i: int|
        0 <= i && i + 4 <= s.len() && #[trigger] s[i] == '.' && s[i + 1] == 'j' && s[i + 2] == 't'
            && s[i + 3] == 'd'
}

/// The length-prefixed path string at `off` (u32 length `n` in 1..=512, `n` units), when it
/// fits, decodes, and looks like a path.
pub open spec fn path_at(data: Seq<u8>, off: int) -> Option<Seq<char>> {
    let n = le_u32(data, off);
    if off + 4 <= data.len() && 1 <= n <= 512 && off + 4 + 2 * n <= data.len() {
        match utf16_decode(le_units(data, off + 4, n)) {
            Some(s) => if looks_like_path(s) {
                Some(s)
            } else {
                None
            },
            None => None,
        }
    } else {
        None
    }
}

/// Original file paths found scanning from byte `off`, after `acc`: a path found is taken and
/// skipped over, otherwise the scan moves two bytes on.
pub open spec fn paths_from(data: Seq<u8>, off: int, acc: Seq<Seq<char>>) -> Seq<Seq<char>>
    decreases data.len() - off,
{
    if off < 0 || off + 4 > data.len() {
        acc
    } else {
        match path_at(data, off) {
            Some(p) => paths_from(data, off + 4 + 2 * le_u32(data, off), acc.push(p)),
            None => paths_from(data, off + 2, acc),
        }
    }
}

/// Original file paths of a DocItemInfo2 stream.
pub open spec fn spec_doc_item_info2(data: Seq<u8>) -> Seq<Seq<char>> {
    paths_from(data, 0, Seq::empty())
}

fn looks_like_path_exec(s: &[char]) -> (r: bool)
    ensures
        r == looks_like_path(s@),
{
    let mut i: usize = 0;
    let mut found = false;
    while i < s.len()
        invariant
            i <= s@.len(),
            found == (exists|j: int| 0 <= j < i && (s@[j] == '\\' || s@[j] == '/')),
        decreases s@.len() - i,
    {
        if s[i] == '\\' || s[i] == '/' {
            found = true;
        }
        i = i + 1;
    }
    if found {
        proof {
            let j = choose|j: int| 0 <= j < i && (s@[j] == '\\' || s@[j] == '/');
            assert(s@[j] == '\\' ==> s@.contains('\\'));
            assert(s@[j] == '/' ==> s@.contains('/'));
        }
        return true;
    }
    assert(!s@.contains('\\') && !s@.contains('/')) by {
        if s@.contains('\\') {
            let j = choose|j: int| 0 <= j < s@.len() && s@[j] == '\\';
        }
        if s@.contains('/') {
            let j = choose|j: int| 0 <= j < s@.len() && s@[j] == '/';
        }
    }
    let mut k: usize = 0;
    while k < s.len() && s.len() - k >= 4
        invariant
            k <= s@.len(),
            forall|j: int|
                0 <= j < k && j + 4 <= s@.len() ==> !(#[trigger] s@[j] == '.' && s@[j + 1] == 'j'
                    && s@[j + 2] == 't' && s@[j + 3] == 'd'),
        decreases s@.len() - k,
    {
        if s[k] == '.' && s[k + 1] == 'j' && s[k + 2] == 't' && s[k + 3] == 'd' {
            return true;
        }
        k = k + 1;
    }
    false
}

fn path_at_exec(data: &[u8], off: usize) -> (r: Option<(String, usize)>)
    requires
        off + 4 <= data@.len(),
    ensures
        match path_at(data@, off as int) {
            None => r is None,
            Some(p) => r matches Some((s, n)) && s@ == p && n as int == le_u32(data@, off as int),
        },
{
    let n = read_le_u32(data, off) as usize;
    if n < 1 || n > 512 || 2 * n > data.len() - off - 4 {
        return None;
    }
    let units = read_le_units(data, off + 4, n);
    match decode_utf16(units.as_slice()) {
        Some(chars) => {
            if looks_like_path_exec(chars.as_slice()) {
                Some((string_of(chars.as_slice()), n))
            } else {
                None
            }
        },
        None => None,
    }
}

/// Original file paths of a DocItemInfo2 stream (see `spec_doc_item_info2`).
pub fn parse_doc_item_info2(data: &[u8]) -> (r: Vec<String>)
    ensures
        strings_view(r@) == spec_doc_item_info2(data@),
{
    let mut paths: Vec<String> = Vec::new();
    let mut off: usize = 0;
    assert(strings_view(paths@) =~= Seq::<Seq<char>>::empty());
    while off <= data.len() && data.len() - off >= 4
        invariant
            paths_from(data@, off as int, strings_view(paths@)) == spec_doc_item_info2(data@),
        decreases data@.len() - off,
    {
        match path_at_exec(data, off) {
            Some((p, n)) => {
                push_string(&mut paths, p);
                off = off + 4 + 2 * n;
            },
            None => {
                off = off + 2;
            },
        }
    }
    paths
}

/// Storage path of sheet storage number `id`: the prefix then `id` zero-padded to four digits.
pub open spec fn storage_path_for(id: u32) -> Seq<char> {
    let d = decimal(id as nat);
    "/ObjectSheets/DocSheet/DOCS_"@ + Seq::new(
        if d.len() < 4 {
            (4 - d.len()) as nat
        } else {
            0
        },
        |i: int| '0',
    ) + d
}

fn storage_path_exec(id: u32) -> (r: String)
    ensures
        r@ == storage_path_for(id),
{
    let d = decimal_chars(id as usize);
    let mut out = chars_of(DOC_SHEET_STORAGE_PREFIX);
    let ghost base = out@;
    let pad = if d.len() < 4 {
        4 - d.len()
    } else {
        0
    };
    let mut i: usize = 0;
    while i < pad
        invariant
            i <= pad <= 4,
            out@ =~= base + Seq::new(i as nat, |j: int| '0'),
        decreases pad - i,
    {
        out.push('0');
        i = i + 1;
    }
    extend_chars(&mut out, d.as_slice());
    string_of(out.as_slice())
}

/// Sheets of a compound file given its three sheet streams' outcomes (see `spec_read_document_sheets`).
pub open spec fn sheets_from(
    info: Result<Seq<u8>, bool>,
    items: Result<Seq<u8>, bool>,
    info2: Result<Seq<u8>, bool>,
) -> Option<Seq<SheetModel>> {
    if info == Err::<Seq<u8>, bool>(false) || items == Err::<Seq<u8>, bool>(false) {
        None
    } else if info is Err && items is Err {
        Some(Seq::empty())
    } else {
        let paths = match info2 {
            Ok(b) => spec_doc_item_info2(b),
            Err(_) => Seq::empty(),
        };
        let root_name = match info {
            Ok(b) => match spec_sheet_info_root_name(b) {
                Some(n) => n,
                None => DEFAULT_ROOT_SHEET_NAME@,
            },
            Err(_) => DEFAULT_ROOT_SHEET_NAME@,
        };
        let root = SheetModel {
            index: 0,
            name: root_name,
            storage_path: Seq::empty(),
            original_path: None,
        };
        match items {
            Err(_) => Some(seq![root]),
            Ok(b) => match spec_doc_item_info(b) {
                None => None,
                Some(entries) => Some(
                    seq![root] + Seq::new(
                        entries.len(),
                        |i: int|
                            SheetModel {
                                index: i + 1,
                                name: entries[i].0,
                                storage_path: storage_path_for(entries[i].1),
                                original_path: if i < paths.len() {
                                    Some(paths[i])
                                } else {
                                    None
                                },
                            },
                    ),
                ),
            },
        }
    }
}

/// The sheets of a compound file: none when neither SheetInfo nor DocItemInfo exists; else the
/// root sheet (named from SheetInfo, or the default name) then one sheet per DocItemInfo entry.
pub open spec fn spec_read_document_sheets(data: Seq<u8>) -> Option<Seq<SheetModel>> {
    sheets_from(
        stream_read(data, OBJECT_SHEETS_SHEET_INFO_PATH@),
        stream_read(data, DOC_SHEET_DOC_ITEM_INFO_PATH@),
        stream_read(data, DOC_SHEET_DOC_ITEM_INFO2_PATH@),
    )
}

/// Each DocItemInfo entry keeps its own original file path: when DocItemInfo lists `entries`,
/// the sheets are the root sheet then one sheet per entry, and the sheet at position `i + 1`
/// has the name and storage of entry `i` and the `i`-th DocItemInfo2 path as its original
/// path (none when DocItemInfo2 is absent or holds fewer paths).
pub proof fn lemma_sheet_original_paths(data: Seq<u8>)
    ensures
        stream_read(data, OBJECT_SHEETS_SHEET_INFO_PATH@) != Err::<Seq<u8>, bool>(false)
            ==> match stream_read(data, DOC_SHEET_DOC_ITEM_INFO_PATH@) {
            Ok(b) => match spec_doc_item_info(b) {
                Some(entries) => {
                    let paths = match stream_read(data, DOC_SHEET_DOC_ITEM_INFO2_PATH@) {
                        Ok(b2) => spec_doc_item_info2(b2),
                        Err(_) => Seq::<Seq<char>>::empty(),
                    };
                    spec_read_document_sheets(data) matches Some(ss) && ss.len() == entries.len() + 1
                        && forall|i: int|
                        0 <= i < entries.len() ==> {
                            let sh = #[trigger] ss[i + 1];
                            &&& sh.index == i + 1
                            &&& sh.name == entries[i].0
                            &&& sh.storage_path == storage_path_for(entries[i].1)
                            &&& sh.original_path == if i < paths.len() {
                                Some(paths[i])
                            } else {
                                None
                            }
                        }
                },
                None => spec_read_document_sheets(data) is None,
            },
            Err(_) => true,
        },
{
}

/// Whether the compound file has SheetInfo or DocItemInfo.
pub open spec fn spec_has_multiple_sheets(data: Seq<u8>) -> bool {
    stream_read(data, OBJECT_SHEETS_SHEET_INFO_PATH@) is Ok || stream_read(
        data,
        DOC_SHEET_DOC_ITEM_INFO_PATH@,
    ) is Ok
}

pub fn has_multiple_sheets(data: &[u8]) -> (r: bool)
    ensures
        r == spec_has_multiple_sheets(data@),
{
    read_cfb_stream(data, OBJECT_SHEETS_SHEET_INFO_PATH).is_ok() || read_cfb_stream(
        data,
        DOC_SHEET_DOC_ITEM_INFO_PATH,
    ).is_ok()
}

fn push_sheet_item(v: &mut Vec<SheetItem>, s: SheetItem)
    ensures
        sheet_views(final(v)@) == sheet_views(old(v)@).push(s@),
{
    let ghost sv = s@;
    v.push(s);
    assert(sheet_views(v@) =~= sheet_views(old(v)@).push(sv));
}

/// The sheets of a compound file (see `spec_read_document_sheets`); `Error::InvalidData` when a
/// sheet stream cannot be read or DocItemInfo is malformed.
pub fn read_document_sheets(data: &[u8]) -> (r: Result<Vec<SheetItem>, Error>)
    ensures
        match spec_read_document_sheets(data@) {
            None => r matches Err(Error::InvalidData(_)),
            Some(sheets) => r matches Ok(v) && sheet_views(v@) == sheets,
        },
{
    let info = match read_cfb_stream(data, OBJECT_SHEETS_SHEET_INFO_PATH) {
        Ok(bytes) => Some(bytes),
        Err(Error::NotFound(_)) => None,
        Err(error) => return Err(error),
    };
    let items = match read_cfb_stream(data, DOC_SHEET_DOC_ITEM_INFO_PATH) {
        Ok(bytes) => Some(bytes),
        Err(Error::NotFound(_)) => None,
        Err(error) => return Err(error),
    };
    if info.is_none() && items.is_none() {
        let v: Vec<SheetItem> = Vec::new();
        assert(sheet_views(v@) =~= Seq::<SheetModel>::empty());
        return Ok(v);
    }
    let paths = match read_cfb_stream(data, DOC_SHEET_DOC_ITEM_INFO2_PATH) {
        Ok(bytes) => parse_doc_item_info2(bytes.as_slice()),
        Err(_) => Vec::new(),
    };
    assert(stream_read(data@, DOC_SHEET_DOC_ITEM_INFO2_PATH@) is Err ==> strings_view(paths@) =~= Seq::<Seq<char>>::empty());
    let root_name = match &info {
        Some(bytes) => match parse_sheet_info_root_name(bytes.as_slice()) {
            Some(n) => n,
            None => owned(DEFAULT_ROOT_SHEET_NAME),
        },
        None => owned(DEFAULT_ROOT_SHEET_NAME),
    };
    let mut sheets: Vec<SheetItem> = Vec::new();
    let root_item = SheetItem::new(0, root_name.as_str(), "", None);
    proof {
        reveal_strlit("");
    }
    assert(""@ =~= Seq::<char>::empty());
    let ghost root = root_item@;
    assert(sheet_views(sheets@) =~= Seq::<SheetModel>::empty());
    push_sheet_item(&mut sheets, root_item);
    assert(sheet_views(sheets@) =~= seq![root]);
    let ghost expected = spec_read_document_sheets(data@);
    let ghost pv0 = strings_view(paths@);
    assert(pv0 == match stream_read(data@, DOC_SHEET_DOC_ITEM_INFO2_PATH@) {
        Ok(b) => spec_doc_item_info2(b),
        Err(_) => Seq::empty(),
    });
    assert(root.name == match stream_read(data@, OBJECT_SHEETS_SHEET_INFO_PATH@) {
        Ok(b) => match spec_sheet_info_root_name(b) {
            Some(n) => n,
            None => DEFAULT_ROOT_SHEET_NAME@,
        },
        Err(_) => DEFAULT_ROOT_SHEET_NAME@,
    });
    assert(root.storage_path =~= Seq::<char>::empty());
    match &items {
        None => {
            assert(sheet_views(sheets@) =~= seq![root]);
        },
        Some(bytes) => {
            let entries = match parse_doc_item_info(bytes.as_slice()) {
                Ok(entries) => entries,
                Err(error) => {
                    return Err(error);
                },
            };
            let ghost ev = item_views(entries@);
            let ghost pv = strings_view(paths@);
            let mut i: usize = 0;
            while i < entries.len()
                invariant
                    i <= entries@.len(),
                    ev == item_views(entries@),
                    pv == strings_view(paths@),
                    sheet_views(sheets@) =~= seq![root] + Seq::new(
                        i as nat,
                        |j: int|
                            SheetModel {
                                index: j + 1,
                                name: ev[j].0,
                                storage_path: storage_path_for(ev[j].1),
                                original_path: if j < pv.len() {
                                    Some(pv[j])
                                } else {
                                    None
                                },
                            },
                    ),
                decreases entries@.len() - i,
            {
                let name = entries[i].0.clone();
                let id = entries[i].1;
                let orig = if i < paths.len() {
                    Some(paths[i].clone())
                } else {
                    None
                };
                let storage = storage_path_exec(id);
                let index = sheets.len();
                push_sheet_item(&mut sheets, SheetItem::new(index, name.as_str(), storage.as_str(), orig));
                i = i + 1;
            }
            assert(sheet_views(sheets@) =~= expected.unwrap());
        },
    }
    Ok(sheets)
}

} // verus!
