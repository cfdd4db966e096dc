//! Row-header records of a DocumentText stream: state/run pairs that lay a row out on a grid.
//!
//! A row header is a `0x001c`/`0x0010` record of subtype `0x008f`:
//! `[0x001c, 0x0010, total, f0..f5, payload.., total, 0x0000, 0x0010, 0x001f]`.
//! The payload holds `(state, run)` word pairs up to a `0xffff` terminator; what follows the
//! last pair is kept as the raw tail.
use vstd::prelude::*;

use super::DocumentTextSourceSpan;
use super::scan::{RECORD_CLASS_PARAGRAPH_LINE, RECORD_START_MARKER, TEXT_RUN_MARKER};
use crate::units::{be_units, to_be_units};

verus! {

/// Subtype word (the second fixed word) of a row-header record.
pub const ROW_HEADER_SUBTYPE: u16 = 0x008f;

/// Number of fixed words after the record head.
pub const ROW_HEADER_FIXED_WORDS: usize = 6;

/// Word that ends the pair list.
pub const ROW_HEADER_PAIR_TERMINATOR: u16 = 0xffff;

/// Shortest row-header record: head (3), fixed words (6), footer (4).
pub const ROW_HEADER_MIN_WORDS: usize = 13;

/// Whether a well-formed row-header record starts at unit `i`.
pub open spec fn is_row_header_at(u: Seq<u16>, i: int) -> bool {
    &&& 0 <= i && i + 3 <= u.len()
    &&& u[i] == RECORD_START_MARKER
    &&& u[i + 1] == RECORD_CLASS_PARAGRAPH_LINE
    &&& ROW_HEADER_MIN_WORDS <= u[i + 2] && i + u[i + 2] <= u.len()
    &&& u[i + 4] == ROW_HEADER_SUBTYPE
    &&& u[i + u[i + 2] - 4] == u[i + 2]
    &&& u[i + u[i + 2] - 3] == 0
    &&& u[i + u[i + 2] - 2] == RECORD_CLASS_PARAGRAPH_LINE
    &&& u[i + u[i + 2] - 1] == TEXT_RUN_MARKER
}

/// Index at which the pair list of `p`, read from `k`, stops: at a terminator word, or where
/// fewer than two words are left.
pub open spec fn pairs_end(p: Seq<u16>, k: int) -> int
    decreases p.len() - k,
{
    if 0 <= k && k + 1 < p.len() && p[k] != ROW_HEADER_PAIR_TERMINATOR {
        pairs_end(p, k + 2)
    } else {
        k
    }
}

pub proof fn lemma_pairs_end(p: Seq<u16>, k: int)
    requires
        0 <= k,
    ensures
        k <= pairs_end(p, k),
        pairs_end(p, k) <= if k <= p.len() { p.len() as int } else { k },
        (pairs_end(p, k) - k) % 2 == 0,
        pairs_end(p, k) < p.len() ==> p[pairs_end(p, k)] == ROW_HEADER_PAIR_TERMINATOR
            || pairs_end(p, k) + 1 == p.len(),
    decreases p.len() - k,
{
    if k + 1 < p.len() && p[k] != ROW_HEADER_PAIR_TERMINATOR {
        lemma_pairs_end(p, k + 2);
    }
}

/// The `(state, run)` pairs of a payload.
pub open spec fn spec_pairs(p: Seq<u16>) -> Seq<(u16, u16)> {
    Seq::new((pairs_end(p, 0) / 2) as nat, |j: int| (p[2 * j], p[2 * j + 1]))
}

/// Grid position at which pair `j` starts: one past `w8`, then each pair takes its run plus
/// one position.
pub open spec fn pair_cursor(runs: Seq<(u16, u16)>, w8: u16, j: int) -> int
    decreases j,
{
    if j <= 0 {
        w8 + 1
    } else {
        pair_cursor(runs, w8, j - 1) + runs[j - 1].1 + 1
    }
}

pub proof fn lemma_pair_cursor_bound(runs: Seq<(u16, u16)>, w8: u16, j: int)
    requires
        0 <= j,
    ensures
        0 < pair_cursor(runs, w8, j) <= 65536 * (j + 1),
    decreases j,
{
    if j > 0 {
        lemma_pair_cursor_bound(runs, w8, j - 1);
    }
}

/// How a pair reads: a zero run is a junction, state zero a blank run, anything else a
/// non-blank run.
#[derive(Debug, Clone, Copy, PartialEq, Eq, Structural)]
pub enum DocumentTextRowHeaderPairClassification {
    Junction,
    BlankRun,
    NonBlankRun,
}

pub open spec fn classify(state_code: u16, run_length: u16) -> DocumentTextRowHeaderPairClassification {
    if run_length == 0 {
        DocumentTextRowHeaderPairClassification::Junction
    } else if state_code == 0 {
        DocumentTextRowHeaderPairClassification::BlankRun
    } else {
        DocumentTextRowHeaderPairClassification::NonBlankRun
    }
}

/// A pair placed on the grid.
pub struct RowHeaderPairModel {
    pub state_code: u16,
    pub run_length: u16,
    pub start_unit: int,
    pub end_unit: int,
    pub geometry_complete: bool,
}

/// Pair `j` of `runs` placed on a grid of `grid` positions after `w8`.
pub open spec fn pair_model(runs: Seq<(u16, u16)>, w8: u16, grid: u16, j: int) -> RowHeaderPairModel {
    let start = pair_cursor(runs, w8, j);
    RowHeaderPairModel {
        state_code: runs[j].0,
        run_length: runs[j].1,
        start_unit: start,
        end_unit: start + runs[j].1,
        geometry_complete: start + runs[j].1 < grid,
    }
}

#[derive(Debug, Clone, Copy, PartialEq, Eq)]
pub struct DocumentTextRowHeaderPair {
    state_code: u16,
    run_length: u16,
    start_unit: usize,
    end_unit: usize,
    geometry_complete: bool,
}

impl View for DocumentTextRowHeaderPair {
    type V = RowHeaderPairModel;

    closed spec fn view(&self) -> RowHeaderPairModel {
        RowHeaderPairModel {
            state_code: self.state_code,
            run_length: self.run_length,
            start_unit: self.start_unit as int,
            end_unit: self.end_unit as int,
            geometry_complete: self.geometry_complete,
        }
    }
}

impl DocumentTextRowHeaderPair {
    pub fn state_code(&self) -> (r: u16)
        ensures
            r == self@.state_code,
    {
        self.state_code
    }

    pub fn run_length(&self) -> (r: u16)
        ensures
            r == self@.run_length,
    {
        self.run_length
    }

    pub fn start_unit(&self) -> (r: usize)
        ensures
            r == self@.start_unit,
    {
        self.start_unit
    }

    pub fn end_unit(&self) -> (r: usize)
        ensures
            r == self@.end_unit,
    {
        self.end_unit
    }

    pub fn classification(&self) -> (r: DocumentTextRowHeaderPairClassification)
        ensures
            r == classify(self@.state_code, self@.run_length),
    {
        if self.run_length == 0 {
            DocumentTextRowHeaderPairClassification::Junction
        } else if self.state_code == 0 {
            DocumentTextRowHeaderPairClassification::BlankRun
        } else {
            DocumentTextRowHeaderPairClassification::NonBlankRun
        }
    }

    /// Whether the pair ends inside the grid.
    pub fn geometry_complete(&self) -> (r: bool)
        ensures
            r == self@.geometry_complete,
    {
        self.geometry_complete
    }
}

/// The six fixed words of a row-header record.
#[derive(Debug, Clone, PartialEq, Eq)]
pub struct DocumentTextRowHeaderFixedFields {
    raw_words: [u16; 6],
}

impl View for DocumentTextRowHeaderFixedFields {
    type V = Seq<u16>;

    closed spec fn view(&self) -> Seq<u16> {
        self.raw_words@
    }
}

impl DocumentTextRowHeaderFixedFields {
    pub fn raw_words(&self) -> (r: &[u16])
        ensures
            r@ == self@,
            r@.len() == ROW_HEADER_FIXED_WORDS,
    {
        broadcast use vstd::array::group_array_axioms;
        self.raw_words.as_slice()
    }

    /// The record subtype (second word).
    pub fn subtype(&self) -> (r: u16)
        ensures
            r == self@[1],
    {
        self.raw_words[1]
    }

    /// Number of grid positions (fourth word).
    pub fn grid_extent(&self) -> (r: u16)
        ensures
            r == self@[3],
    {
        self.raw_words[3]
    }

    /// Grid position before the first pair (sixth word, word 8 of the record).
    pub fn w8(&self) -> (r: u16)
        ensures
            r == self@[5],
    {
        self.raw_words[5]
    }
}

/// A row-header record as values.
pub struct RowHeaderModel {
    pub unit_start: int,
    pub unit_end: int,
    pub total_len_words: u16,
    pub fixed: Seq<u16>,
    pub payload: Seq<u16>,
    pub pairs: Seq<RowHeaderPairModel>,
    pub tail: Seq<u16>,
    pub tail_truncated: bool,
    pub geometry_complete: bool,
}

/// Whether the pairs tile the grid: the pair list ended at its terminator, every pair ends
/// inside the grid, and the last one ends on its final position.
pub open spec fn grid_complete(pairs: Seq<RowHeaderPairModel>, tail_truncated: bool, grid: u16) -> bool {
    &&& !tail_truncated
    &&& pairs.len() > 0
    &&& forall|j: int| 0 <= j < pairs.len() ==> (#[trigger] pairs[j]).geometry_complete
    &&& pairs.last().end_unit + 1 == grid
}

/// The row-header record at unit `i`.
pub open spec fn spec_row_header(u: Seq<u16>, i: int) -> RowHeaderModel {
    let t = u[i + 2] as int;
    let fixed = u.subrange(i + 3, i + 9);
    let payload = u.subrange(i + 9, i + t - 4);
    let end = pairs_end(payload, 0);
    let runs = spec_pairs(payload);
    let pairs = Seq::new(runs.len(), |j: int| pair_model(runs, fixed[5], fixed[3], j));
    let truncated = !(end < payload.len() && payload[end] == ROW_HEADER_PAIR_TERMINATOR);
    RowHeaderModel {
        unit_start: i,
        unit_end: i + t,
        total_len_words: u[i + 2],
        fixed,
        payload,
        pairs,
        tail: payload.subrange(end, payload.len() as int),
        tail_truncated: truncated,
        geometry_complete: grid_complete(pairs, truncated, fixed[3]),
    }
}

/// The row-header records found scanning from unit `i`; the scan resumes after each record.
pub open spec fn spec_row_headers(u: Seq<u16>, i: int) -> Seq<RowHeaderModel>
    decreases u.len() - i,
{
    if i < 0 || i >= u.len() {
        Seq::empty()
    } else if is_row_header_at(u, i) {
        seq![spec_row_header(u, i)] + spec_row_headers(u, i + u[i + 2])
    } else {
        spec_row_headers(u, i + 1)
    }
}

pub open spec fn pair_views(v: Seq<DocumentTextRowHeaderPair>) -> Seq<RowHeaderPairModel> {
    Seq::new(v.len(), |j: int| v[j]@)
}

#[derive(Debug, Clone, PartialEq, Eq)]
pub struct DocumentTextRowHeaderRecord {
    source_span: DocumentTextSourceSpan,
    total_len_words: u16,
    fixed_fields: DocumentTextRowHeaderFixedFields,
    raw_payload_words: Vec<u16>,
    pairs: Vec<DocumentTextRowHeaderPair>,
    raw_tail_words: Vec<u16>,
    tail_truncated: bool,
    geometry_complete: bool,
}

impl View for DocumentTextRowHeaderRecord {
    type V = RowHeaderModel;

    closed spec fn view(&self) -> RowHeaderModel {
        RowHeaderModel {
            unit_start: self.source_span@.unit_start,
            unit_end: self.source_span@.unit_end,
            total_len_words: self.total_len_words,
            fixed: self.fixed_fields@,
            payload: self.raw_payload_words@,
            pairs: pair_views(self.pairs@),
            tail: self.raw_tail_words@,
            tail_truncated: self.tail_truncated,
            geometry_complete: self.geometry_complete,
        }
    }
}

impl DocumentTextRowHeaderRecord {
    pub fn source_span(&self) -> (r: DocumentTextSourceSpan)
        ensures
            r@.unit_start == self@.unit_start,
            r@.unit_end == self@.unit_end,
    {
        self.source_span
    }

    pub fn total_len_words(&self) -> (r: u16)
        ensures
            r == self@.total_len_words,
    {
        self.total_len_words
    }

    pub fn fixed_fields(&self) -> (r: &DocumentTextRowHeaderFixedFields)
        ensures
            r@ == self@.fixed,
    {
        &self.fixed_fields
    }

    pub fn raw_payload_words(&self) -> (r: &[u16])
        ensures
            r@ == self@.payload,
    {
        self.raw_payload_words.as_slice()
    }

    pub fn pairs(&self) -> (r: &[DocumentTextRowHeaderPair])
        ensures
            pair_views(r@) == self@.pairs,
    {
        self.pairs.as_slice()
    }

    /// The words after the last pair: the terminator and what follows it.
    pub fn raw_tail_words(&self) -> (r: &[u16])
        ensures
            r@ == self@.tail,
    {
        self.raw_tail_words.as_slice()
    }

    /// Whether the pair list ran out before a terminator word.
    pub fn tail_truncated(&self) -> (r: bool)
        ensures
            r == self@.tail_truncated,
    {
        self.tail_truncated
    }

    /// Whether the pairs tile the grid exactly (see `grid_complete`).
    pub fn geometry_complete(&self) -> (r: bool)
        ensures
            r == self@.geometry_complete,
    {
        self.geometry_complete
    }
}

fn copy_units(units: &[u16], start: usize, end: usize) -> (r: Vec<u16>)
    requires
        start <= end <= units@.len(),
    ensures
        r@ == units@.subrange(start as int, end as int),
{
    let mut r: Vec<u16> = Vec::new();
    let mut i = start;
    while i < end
        invariant
            start <= i <= end <= units@.len(),
            r@ =~= units@.subrange(start as int, i as int),
        decreases end - i,
    {
        r.push(units[i]);
        i = i + 1;
    }
    r
}

fn row_header_at(units: &[u16], i: usize) -> (r: bool)
    requires
        i < units@.len(),
    ensures
        r == is_row_header_at(units@, i as int),
{
    if units.len() - i < 3 {
        return false;
    }
    if units[i] != RECORD_START_MARKER || units[i + 1] != RECORD_CLASS_PARAGRAPH_LINE {
        return false;
    }
    let t = units[i + 2] as usize;
    if t < ROW_HEADER_MIN_WORDS || t > units.len() - i {
        return false;
    }
    let e = i + t;
    units[i + 4] == ROW_HEADER_SUBTYPE && units[e - 4] == units[i + 2] && units[e - 3] == 0
        && units[e - 2] == RECORD_CLASS_PARAGRAPH_LINE && units[e - 1] == TEXT_RUN_MARKER
}

/// Places the pairs of `payload` on the grid.
fn place_pairs(payload: &[u16], w8: u16, grid: u16) -> (r: (Vec<DocumentTextRowHeaderPair>, usize, bool))
    requires
        payload@.len() < 65536,
    ensures
        r.1 == pairs_end(payload@, 0),
        pair_views(r.0@) == Seq::new(
            spec_pairs(payload@).len(),
            |j: int| pair_model(spec_pairs(payload@), w8, grid, j),
        ),
        r.2 == (r.0@.len() > 0 && (forall|j: int|
            0 <= j < r.0@.len() ==> (#[trigger] pair_views(r.0@)[j]).geometry_complete)
            && pair_views(r.0@).last().end_unit + 1 == grid),
{
    let ghost p = payload@;
    let ghost runs = spec_pairs(p);
    let ghost target = Seq::new(runs.len(), |j: int| pair_model(runs, w8, grid, j));
    proof {
        lemma_pairs_end(p, 0);
    }
    let mut pairs: Vec<DocumentTextRowHeaderPair> = Vec::new();
    let mut k: usize = 0;
    let mut cursor: usize = w8 as usize + 1;
    let mut all_inside = true;
    let mut last_end: usize = 0;
    while k + 1 < payload.len() && payload[k] != ROW_HEADER_PAIR_TERMINATOR
        invariant
            p == payload@,
            p.len() < 65536,
            runs == spec_pairs(p),
            target == Seq::new(runs.len(), |j: int| pair_model(runs, w8, grid, j)),
            k % 2 == 0,
            k <= pairs_end(p, 0),
            pairs_end(p, k as int) == pairs_end(p, 0),
            pairs@.len() == k / 2,
            pair_views(pairs@) =~= target.take(pairs@.len() as int),
            cursor == pair_cursor(runs, w8, pairs@.len() as int),
            all_inside == (forall|j: int|
                0 <= j < pairs@.len() ==> (#[trigger] target[j]).geometry_complete),
            pairs@.len() > 0 ==> last_end == target[pairs@.len() - 1].end_unit,
        decreases p.len() - k,
    {
        proof {
            lemma_pairs_end(p, k + 2);
            lemma_pair_cursor_bound(runs, w8, pairs@.len() as int);
        }
        let state_code = payload[k];
        let run_length = payload[k + 1];
        let ghost j = pairs@.len() as int;
        assert(j < runs.len());
        assert(runs[j] == (state_code, run_length));
        let start = cursor;
        let end = start + run_length as usize;
        let inside = end < grid as usize;
        let pair = DocumentTextRowHeaderPair {
            state_code,
            run_length,
            start_unit: start,
            end_unit: end,
            geometry_complete: inside,
        };
        assert(pair@ == target[j]);
        pairs.push(pair);
        all_inside = all_inside && inside;
        last_end = end;
        cursor = end + 1;
        k = k + 2;
        assert(pair_views(pairs@) =~= target.take(pairs@.len() as int));
    }
    proof {
        lemma_pairs_end(p, k as int);
        assert(pairs@.len() == runs.len());
        assert(target.take(pairs@.len() as int) =~= target);
    }
    let complete = all_inside && pairs.len() > 0 && last_end + 1 == grid as usize;
    (pairs, k, complete)
}

fn read_row_header(units: &[u16], i: usize) -> (r: DocumentTextRowHeaderRecord)
    requires
        is_row_header_at(units@, i as int),
        units@.len() <= usize::MAX / 2,
    ensures
        r@ == spec_row_header(units@, i as int),
{
    let ghost u = units@;
    let t = units[i + 2] as usize;
    let fixed: [u16; 6] = [
        units[i + 3],
        units[i + 4],
        units[i + 5],
        units[i + 6],
        units[i + 7],
        units[i + 8],
    ];
    proof {
        broadcast use vstd::array::group_array_axioms;
        assert(fixed@ =~= u.subrange(i + 3, i + 9));
    }
    let payload = copy_units(units, i + 9, i + t - 4);
    let w8 = fixed[5];
    let grid = fixed[3];
    let (pairs, end, complete) = place_pairs(payload.as_slice(), w8, grid);
    proof {
        lemma_pairs_end(payload@, 0);
    }
    let tail = copy_units(payload.as_slice(), end, payload.len());
    let truncated = !(end < payload.len() && payload[end] == ROW_HEADER_PAIR_TERMINATOR);
    let complete = complete && !truncated;
    let r = DocumentTextRowHeaderRecord {
        source_span: DocumentTextSourceSpan::new(i, i + t),
        total_len_words: units[i + 2],
        fixed_fields: DocumentTextRowHeaderFixedFields { raw_words: fixed },
        raw_payload_words: payload,
        pairs,
        raw_tail_words: tail,
        tail_truncated: truncated,
        geometry_complete: complete,
    };
    proof {
        let m = spec_row_header(u, i as int);
        assert(r@.pairs == m.pairs);
        assert(r@.geometry_complete == m.geometry_complete);
    }
    r
}

/// All row-header records of a DocumentText byte stream (big-endian units), in stream order.
pub fn parse_document_text_row_headers(bytes: &[u8]) -> (r: Vec<DocumentTextRowHeaderRecord>)
    ensures
        Seq::new(r@.len(), |j: int| r@[j]@) == spec_row_headers(be_units(bytes@), 0),
{
    let n = bytes.len();
    let units = to_be_units(bytes);
    let ghost u = units@;
    assert(u.len() == n / 2);
    let mut out: Vec<DocumentTextRowHeaderRecord> = Vec::new();
    let mut i: usize = 0;
    while i < units.len()
        invariant
            u == units@,
            u.len() <= usize::MAX / 2,
            i <= u.len(),
            Seq::new(out@.len(), |j: int| out@[j]@) + spec_row_headers(u, i as int)
                == spec_row_headers(u, 0),
        decreases u.len() - i,
    {
        if row_header_at(units.as_slice(), i) {
            let record = read_row_header(units.as_slice(), i);
            let ghost before = Seq::new(out@.len(), |j: int| out@[j]@);
            out.push(record);
            assert(Seq::new(out@.len(), |j: int| out@[j]@) =~= before.push(record@));
            assert(before.push(record@) + spec_row_headers(u, i + units[i + 2] as int)
                =~= before + spec_row_headers(u, i as int));
            i = i + units[i + 2] as usize;
        } else {
            i = i + 1;
        }
    }
    proof {
        assert(spec_row_headers(u, i as int) =~= Seq::empty());
        let v = Seq::new(out@.len(), |j: int| out@[j]@);
        assert(v + Seq::<RowHeaderModel>::empty() =~= v);
    }
    out
}

/// The pairs of a row header lie end to end on the grid: the first starts one past `w8`,
/// each spans its run, and each starts one past the end of the one before; a record whose
/// geometry is complete ends on the grid's last position.
pub proof fn lemma_row_header_pairs_tile(u: Seq<u16>, i: int)
    requires
        is_row_header_at(u, i),
    ensures
        spec_row_header(u, i).pairs.len() > 0 ==> spec_row_header(u, i).pairs[0].start_unit
            == spec_row_header(u, i).fixed[5] + 1,
        forall|j: int|
            0 <= j < spec_row_header(u, i).pairs.len() ==> (#[trigger] spec_row_header(u, i).pairs[j]).end_unit
                - spec_row_header(u, i).pairs[j].start_unit == spec_row_header(u, i).pairs[j].run_length,
        forall|j: int|
            0 <= j && j + 1 < spec_row_header(u, i).pairs.len() ==> (#[trigger] spec_row_header(u, i).pairs[j
                + 1]).start_unit == spec_row_header(u, i).pairs[j].end_unit + 1,
        spec_row_header(u, i).geometry_complete ==> spec_row_header(u, i).pairs.last().end_unit + 1
            == spec_row_header(u, i).fixed[3],
{
}

} // verus!
