//! Streams of a compound file (CFB) held in memory.
use vstd::prelude::*;

use crate::error::{Error, owned};
use crate::text::{chars_of, extend_chars, string_of};

verus! {

/// Whether `p` holds a character that no entry name of a compound file can hold and that some
/// platforms read as part of a path prefix or as a separator: `\\` or `:`.
pub open spec fn has_foreign_separator(p: Seq<char>) -> bool {
    exists|i: int| 0 <= i < p.len() && (p[i] == '\\' || p[i] == ':')
}

/// Whether `p` starts with two slashes.
pub open spec fn starts_with_double_slash(p: Seq<char>) -> bool {
    p.len() >= 2 && p[0] == '/' && p[1] == '/'
}

/// A path that every platform splits into the same names: no `\\`, no `:`, and not starting
/// with two slashes.
pub open spec fn portable_stream_path(p: Seq<char>) -> bool {
    !has_foreign_separator(p) && !starts_with_double_slash(p)
}

/// `p` with a run of leading slashes cut down to one (the same path: repeated separators
/// split into no names).
pub open spec fn single_root(p: Seq<char>) -> Seq<char>
    decreases p.len(),
{
    if starts_with_double_slash(p) {
        single_root(p.drop_first())
    } else {
        p
    }
}

/// What reading the stream at the portable `path` of the compound file `data` gives: its
/// bytes, `Err(true)` when the file has no stream at that path, `Err(false)` when `data` cannot
/// be read as a compound file or the stream cannot be read.
pub uninterp spec fn cfb_stream_lookup(data: Seq<u8>, path: Seq<char>) -> Result<Seq<u8>, bool>;

/// `cfb::CompoundFile::open` on the bytes (through a `std::io::Cursor`), then
/// `CompoundFile::open_stream(path)`, then `std::io::Read::read_to_end` of that stream.
/// Claimed, for a portable path (no `\\`, no `:`, no leading `//`, so that `Path::components`
/// gives the same names on every platform): the outcome is a function of the bytes and the
/// path (named `cfb_stream_lookup`); `open_stream` reports a path that names no stream with
/// the `NotFound` error kind, which gives `Err(true)`; any other failure gives `Err(false)`.
/// The crate reports malformed input through `io::Error` values rather than by panicking.
/// Not stated: which bytes the stream holds (that is the crate's reading of the
/// compound-file format).
#[verifier::external_body]
fn compound_stream(data: &[u8], path: &str) -> (r: Result<Vec<u8>, bool>)
    requires
        portable_stream_path(path@),
    ensures
        match r {
            Ok(bytes) => cfb_stream_lookup(data@, path@) == Ok::<Seq<u8>, bool>(bytes@),
            Err(missing) => cfb_stream_lookup(data@, path@) == Err::<Seq<u8>, bool>(missing),
        },
{
    let mut file = match cfb::CompoundFile::open(std::io::Cursor::new(data)) {
        Ok(file) => file,
        Err(_) => return Err(false),
    };
    let mut stream = match file.open_stream(path) {
        Ok(stream) => stream,
        Err(error) => return Err(error.kind() == std::io::ErrorKind::NotFound),
    };
    let mut bytes = Vec::new();
    match std::io::Read::read_to_end(&mut stream, &mut bytes) {
        Ok(_) => Ok(bytes),
        Err(_) => Err(false),
    }
}

/// The outcome of `read_cfb_stream`: a path holding `\\` or `:` names no stream (no entry
/// name holds those characters); any other path is read with its leading slashes cut down to
/// one.
pub open spec fn stream_read(data: Seq<u8>, path: Seq<char>) -> Result<Seq<u8>, bool> {
    if has_foreign_separator(path) {
        Err(true)
    } else {
        cfb_stream_lookup(data, single_root(path))
    }
}

proof fn lemma_single_root(p: Seq<char>, k: int)
    requires
        0 <= k < p.len(),
        forall|j: int| 0 <= j < k ==> p[j] == '/',
        k == 0 || p[k] == '/',
        !starts_with_double_slash(p.subrange(k, p.len() as int)),
    ensures
        single_root(p) == p.subrange(k, p.len() as int),
    decreases k,
{
    if k == 0 {
        assert(p.subrange(0, p.len() as int) =~= p);
    } else {
        assert(starts_with_double_slash(p));
        let t = p.drop_first();
        assert(t.subrange(k - 1, t.len() as int) =~= p.subrange(k, p.len() as int));
        lemma_single_root(t, k - 1);
    }
}

/// The error `read_cfb_stream` reports for the stream at `path`: `Error::NotFound` naming the
/// path when the stream is `missing`, else `Error::InvalidData` naming the path.
pub open spec fn is_stream_error(e: Error, missing: bool, path: Seq<char>) -> bool {
    if missing {
        e matches Error::NotFound(d) && d@ == path
    } else {
        e matches Error::InvalidData(d) && d@ == path
    }
}

/// Reads the stream at `path` (e.g. `/DocumentText`) of the compound file `data`:
/// `Error::NotFound` when there is no such stream, `Error::InvalidData` when the container or
/// the stream cannot be read; either error names the path.
pub fn read_cfb_stream(data: &[u8], path: &str) -> (r: Result<Vec<u8>, Error>)
    ensures
        match stream_read(data@, path@) {
            Ok(bytes) => r matches Ok(v) && v@ == bytes,
            Err(missing) => r matches Err(e) && is_stream_error(e, missing, path@),
        },
{
    let chars = chars_of(path);
    let mut i: usize = 0;
    while i < chars.len()
        invariant
            chars@ == path@,
            i <= chars@.len(),
            forall|j: int| 0 <= j < i ==> chars@[j] != '\\' && chars@[j] != ':',
        decreases chars@.len() - i,
    {
        if chars[i] == '\\' || chars[i] == ':' {
            return Err(Error::NotFound(owned(path)));
        }
        i = i + 1;
    }
    let mut k: usize = 0;
    while k < chars.len() && chars.len() - k > 1 && chars[k] == '/' && chars[k + 1] == '/'
        invariant
            chars@ == path@,
            k == 0 || k < chars@.len(),
            forall|j: int| 0 <= j < k ==> chars@[j] == '/',
            k == 0 || chars@[k as int] == '/',
        decreases chars@.len() - k,
    {
        k = k + 1;
    }
    let mut rest: Vec<char> = Vec::new();
    let mut j: usize = k;
    while j < chars.len()
        invariant
            k <= j <= chars@.len(),
            rest@ == chars@.subrange(k as int, j as int),
        decreases chars@.len() - j,
    {
        rest.push(chars[j]);
        j = j + 1;
    }
    let trimmed = string_of(rest.as_slice());
    proof {
        if chars@.len() > 0 {
            assert(!starts_with_double_slash(chars@.subrange(k as int, chars@.len() as int)));
            lemma_single_root(chars@, k as int);
        } else {
            assert(single_root(path@) == path@);
        }
        assert(rest@ =~= single_root(path@));
        assert(!has_foreign_separator(path@));
        assert(!has_foreign_separator(trimmed@)) by {
            assert forall|x: int| 0 <= x < trimmed@.len() implies trimmed@[x] != '\\'
                && trimmed@[x] != ':' by {
                assert(trimmed@[x] == path@[k + x]);
            }
        }
    }
    match compound_stream(data, trimmed.as_str()) {
        Ok(bytes) => Ok(bytes),
        Err(true) => Err(Error::NotFound(owned(path))),
        Err(false) => Err(Error::InvalidData(owned(path))),
    }
}

/// The entries that walking a compound file lists, in walk order: whether each is the root,
/// whether it is a stream, its size in bytes, and the components of its path (`None` for the
/// root component, the text of each other one); `None` when `data` cannot be opened as a
/// compound file.
pub uninterp spec fn cfb_entry_listing(data: Seq<u8>) -> Option<
    Seq<(bool, bool, u64, Seq<Option<Seq<char>>>)>,
>;

/// The view of one path component.
pub open spec fn component_view(c: Option<String>) -> Option<Seq<char>> {
    match c {
        Some(s) => Some(s@),
        None => None,
    }
}

/// The view of one listed entry.
pub open spec fn raw_entry_view(e: (bool, bool, u64, Vec<Option<String>>)) -> (
    bool,
    bool,
    u64,
    Seq<Option<Seq<char>>>,
) {
    (e.0, e.1, e.2, e.3@.map_values(|c: Option<String>| component_view(c)))
}

/// `cfb::CompoundFile::open` on the bytes (through a `std::io::Cursor`), then
/// `CompoundFile::walk`, each entry taken as `Entry::is_root`, `Entry::is_stream`,
/// `Entry::len` and the components of `Entry::path` (`Path::components`): the root component
/// as `None`, each other one as its text (`to_string_lossy`). Claimed: the listing is a
/// function of the bytes (named `cfb_entry_listing`); `None` exactly when `open` fails. The
/// root's text and the separator `join` puts between names differ between platforms; the
/// components do not, since no entry name holds `/`, `\\` or `:` (`validate_name` refuses
/// such names when the directory is read). Not stated: which entries a file holds (the
/// crate's reading of the compound-file format).
#[verifier::external_body]
fn compound_entries(data: &[u8]) -> (r: Option<Vec<(bool, bool, u64, Vec<Option<String>>)>>)
    ensures
        match cfb_entry_listing(data@) {
            None => r is None,
            Some(es) => r matches Some(v) && v@.map_values(
                |e: (bool, bool, u64, Vec<Option<String>>)| raw_entry_view(e),
            ) == es,
        },
{
    let file = match cfb::CompoundFile::open(std::io::Cursor::new(data)) {
        Ok(file) => file,
        Err(_) => return None,
    };
    let mut out = Vec::new();
    for e in file.walk() {
        let names = e.path().components().map(|c| match c {
            std::path::Component::RootDir => None,
            other => Some(other.as_os_str().to_string_lossy().into_owned()),
        }).collect();
        out.push((e.is_root(), e.is_stream(), e.len(), names));
    }
    Some(out)
}

/// The path text of a list of components: `/` before each name, the root component left out.
pub open spec fn joined_path(cs: Seq<Option<Seq<char>>>) -> Seq<char>
    decreases cs.len(),
{
    if cs.len() == 0 {
        Seq::empty()
    } else {
        match cs.last() {
            None => joined_path(cs.drop_last()),
            Some(name) => joined_path(cs.drop_last()) + seq!['/'] + name,
        }
    }
}

fn join_components(cs: &Vec<Option<String>>) -> (r: String)
    ensures
        r@ == joined_path(cs@.map_values(|c: Option<String>| component_view(c))),
{
    let ghost vs = cs@.map_values(|c: Option<String>| component_view(c));
    let mut out: Vec<char> = Vec::new();
    let mut i: usize = 0;
    while i < cs.len()
        invariant
            vs == cs@.map_values(|c: Option<String>| component_view(c)),
            i <= cs@.len(),
            out@ == joined_path(vs.take(i as int)),
        decreases cs@.len() - i,
    {
        assert(vs.take(i + 1).drop_last() =~= vs.take(i as int));
        assert(vs[i as int] == component_view(cs@[i as int]));
        match &cs[i] {
            None => {},
            Some(name) => {
                out.push('/');
                let chars = chars_of(name.as_str());
                extend_chars(&mut out, chars.as_slice());
            },
        }
        assert(out@ =~= joined_path(vs.take(i + 1)));
        i = i + 1;
    }
    assert(vs.take(i as int) =~= vs);
    string_of(out.as_slice())
}

/// Kind of a listed entry.
#[derive(Debug, Clone, Copy, PartialEq, Eq, Structural)]
pub enum EntryKind {
    Stream,
    Storage,
}

impl EntryKind {
    pub fn as_str(self) -> (r: &'static str)
        ensures
            r@ == (match self {
                EntryKind::Stream => "stream"@,
                EntryKind::Storage => "storage"@,
            }),
    {
        match self {
            EntryKind::Stream => "stream",
            EntryKind::Storage => "storage",
        }
    }
}

/// A listed entry: its kind, its size, its path.
pub struct CfbEntryView {
    pub kind: EntryKind,
    pub size: u64,
    pub path: Seq<char>,
}

#[derive(Debug, Clone, PartialEq, Eq)]
pub struct CfbEntry {
    kind: EntryKind,
    size: u64,
    path: String,
}

impl View for CfbEntry {
    type V = CfbEntryView;

    closed spec fn view(&self) -> CfbEntryView {
        CfbEntryView { kind: self.kind, size: self.size, path: self.path@ }
    }
}

impl CfbEntry {
    pub fn kind(&self) -> (r: EntryKind)
        ensures
            r == self@.kind,
    {
        self.kind
    }

    pub fn size(&self) -> (r: u64)
        ensures
            r == self@.size,
    {
        self.size
    }

    pub fn path(&self) -> (r: &str)
        ensures
            r@ == self@.path,
    {
        self.path.as_str()
    }
}

pub open spec fn cfb_entry_views(v: Seq<CfbEntry>) -> Seq<CfbEntryView> {
    Seq::new(v.len(), |i: int| v[i]@)
}

/// A walked entry as listed: a stream or a storage, with its size and path.
pub open spec fn listed_entry(e: (bool, bool, u64, Seq<Option<Seq<char>>>)) -> CfbEntryView {
    CfbEntryView {
        kind: if e.1 {
            EntryKind::Stream
        } else {
            EntryKind::Storage
        },
        size: e.2,
        path: joined_path(e.3),
    }
}

/// The walked entries other than the root, in walk order.
pub open spec fn listed_entries(es: Seq<(bool, bool, u64, Seq<Option<Seq<char>>>)>) -> Seq<
    CfbEntryView,
>
    decreases es.len(),
{
    if es.len() == 0 {
        Seq::empty()
    } else if es.last().0 {
        listed_entries(es.drop_last())
    } else {
        listed_entries(es.drop_last()).push(listed_entry(es.last()))
    }
}

/// The entries of a compound file other than the root, in walk order, each with its kind,
/// size and path (its names joined with `/`, e.g. `/Storage/Stream`); `Error::InvalidData` when `data` cannot be opened as a compound file.
pub fn inspect_cfb_entries(data: &[u8]) -> (r: Result<Vec<CfbEntry>, Error>)
    ensures
        match cfb_entry_listing(data@) {
            None => r matches Err(Error::InvalidData(_)),
            Some(es) => r matches Ok(v) && cfb_entry_views(v@) == listed_entries(es),
        },
{
    let raw = match compound_entries(data) {
        Some(v) => v,
        None => {
            return Err(Error::InvalidData(owned("compound file")));
        },
    };
    let ghost es = raw@.map_values(|e: (bool, bool, u64, Vec<Option<String>>)| raw_entry_view(e));
    let mut out: Vec<CfbEntry> = Vec::new();
    let mut i: usize = 0;
    while i < raw.len()
        invariant
            es == raw@.map_values(|e: (bool, bool, u64, Vec<Option<String>>)| raw_entry_view(e)),
            i <= raw@.len(),
            cfb_entry_views(out@) == listed_entries(es.take(i as int)),
        decreases raw@.len() - i,
    {
        let ghost before = cfb_entry_views(out@);
        let e = &raw[i];
        assert(es.take(i + 1).drop_last() =~= es.take(i as int));
        assert(es[i as int] == raw_entry_view(raw@[i as int]));
        if !e.0 {
            let kind = if e.1 {
                EntryKind::Stream
            } else {
                EntryKind::Storage
            };
            let path = join_components(&e.3);
            out.push(CfbEntry { kind, size: e.2, path });
            assert(cfb_entry_views(out@) =~= before.push(listed_entry(es[i as int])));
        }
        i = i + 1;
    }
    assert(es.take(i as int) =~= es);
    Ok(out)
}

} // verus!
