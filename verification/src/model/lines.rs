//! The non-empty lines of a text: pieces between line breaks ('\r' or '\n'), blank ones
//! dropped.
use vstd::prelude::*;

verus! {

pub open spec fn is_line_break(c: char) -> bool {
    c == '\r' || c == '\n'
}

/// Lines read so far: the finished non-empty lines and the line still open.
pub struct LineSplit {
    pub done: Seq<Seq<char>>,
    pub open: Seq<char>,
}

pub open spec fn no_split() -> LineSplit {
    LineSplit { done: Seq::empty(), open: Seq::empty() }
}

/// Reading one more character: a break closes the open line when it is not empty.
pub open spec fn split_char(ls: LineSplit, c: char) -> LineSplit {
    if is_line_break(c) {
        if ls.open.len() > 0 {
            LineSplit { done: ls.done.push(ls.open), open: Seq::empty() }
        } else {
            ls
        }
    } else {
        LineSplit { done: ls.done, open: ls.open.push(c) }
    }
}

/// Reading the characters of `s` in order.
pub open spec fn split_from(ls: LineSplit, s: Seq<char>) -> LineSplit
    decreases s.len(),
{
    if s.len() == 0 {
        ls
    } else {
        split_char(split_from(ls, s.drop_last()), s.last())
    }
}

/// The lines of a split once the text has ended.
pub open spec fn close_split(ls: LineSplit) -> Seq<Seq<char>> {
    if ls.open.len() > 0 {
        ls.done.push(ls.open)
    } else {
        ls.done
    }
}

/// The non-empty lines of `s`, in order.
pub open spec fn text_lines(s: Seq<char>) -> Seq<Seq<char>> {
    close_split(split_from(no_split(), s))
}

/// Each line followed by '\n'.
pub open spec fn lines_text(lines: Seq<Seq<char>>) -> Seq<char>
    decreases lines.len(),
{
    if lines.len() == 0 {
        Seq::empty()
    } else {
        lines_text(lines.drop_last()) + lines.last() + seq!['\n']
    }
}

pub open spec fn has_no_break(s: Seq<char>) -> bool {
    forall|i: int| 0 <= i < s.len() ==> !is_line_break(#[trigger] s[i])
}

/// Reading `a` then `b` is reading `a + b`.
pub proof fn lemma_split_concat(ls: LineSplit, a: Seq<char>, b: Seq<char>)
    ensures
        split_from(ls, a + b) == split_from(split_from(ls, a), b),
    decreases b.len(),
{
    if b.len() == 0 {
        assert(a + b =~= a);
    } else {
        assert((a + b).drop_last() =~= a + b.drop_last());
        assert((a + b).last() == b.last());
        lemma_split_concat(ls, a, b.drop_last());
    }
}

/// Text without breaks extends the open line.
pub proof fn lemma_split_plain(ls: LineSplit, t: Seq<char>)
    requires
        has_no_break(t),
    ensures
        split_from(ls, t) == (LineSplit { done: ls.done, open: ls.open + t }),
    decreases t.len(),
{
    if t.len() == 0 {
        assert(ls.open + t =~= ls.open);
    } else {
        let p = t.drop_last();
        assert forall|i: int| 0 <= i < p.len() implies !is_line_break(#[trigger] p[i]) by {
            assert(p[i] == t[i]);
        }
        lemma_split_plain(ls, p);
        assert(!is_line_break(t[t.len() - 1]));
        assert((ls.open + p).push(t.last()) =~= ls.open + t);
    }
}

/// Reading one character.
pub proof fn lemma_split_one(ls: LineSplit, c: char)
    ensures
        split_from(ls, seq![c]) == split_char(ls, c),
{
    reveal_with_fuel(split_from, 2);
    assert(seq![c].drop_last() =~= Seq::<char>::empty());
}

/// A finished line: not empty, without breaks.
pub open spec fn line_ok(l: Seq<char>) -> bool {
    l.len() > 0 && has_no_break(l)
}

/// Every finished line is a proper line and the open line has no break.
pub open spec fn split_ok(ls: LineSplit) -> bool {
    &&& forall|i: int| 0 <= i < ls.done.len() ==> line_ok(#[trigger] ls.done[i])
    &&& has_no_break(ls.open)
}

pub proof fn lemma_split_ok(ls: LineSplit, s: Seq<char>)
    requires
        split_ok(ls),
    ensures
        split_ok(split_from(ls, s)),
    decreases s.len(),
{
    if s.len() > 0 {
        lemma_split_ok(ls, s.drop_last());
        let p = split_from(ls, s.drop_last());
        let c = s.last();
        let r = split_char(p, c);
        if !is_line_break(c) {
            assert forall|k: int| 0 <= k < r.open.len() implies !is_line_break(#[trigger] r.open[k]) by {
                if k < p.open.len() {
                    assert(r.open[k] == p.open[k]);
                }
            }
        } else if p.open.len() > 0 {
            assert forall|i: int| 0 <= i < r.done.len() implies line_ok(#[trigger] r.done[i]) by {
                if i < p.done.len() {
                    assert(r.done[i] == p.done[i]);
                }
            }
        }
    }
}

/// The lines of any text are proper lines.
pub proof fn lemma_text_lines_ok(s: Seq<char>)
    ensures
        forall|i: int| 0 <= i < text_lines(s).len() ==> line_ok(#[trigger] text_lines(s)[i]),
{
    lemma_split_ok(no_split(), s);
    let ls = split_from(no_split(), s);
    let r = close_split(ls);
    assert forall|i: int| 0 <= i < r.len() implies line_ok(#[trigger] r[i]) by {
        if i < ls.done.len() {
            assert(r[i] == ls.done[i]);
        }
    }
}

/// Splitting the text of proper lines finds those lines, and no open line.
pub proof fn lemma_split_of_lines_text(lines: Seq<Seq<char>>)
    requires
        forall|i: int| 0 <= i < lines.len() ==> line_ok(#[trigger] lines[i]),
    ensures
        split_from(no_split(), lines_text(lines)) == (LineSplit { done: lines, open: Seq::empty() }),
    decreases lines.len(),
{
    if lines.len() == 0 {
        assert(lines_text(lines) =~= Seq::<char>::empty());
        assert(lines =~= Seq::<Seq<char>>::empty());
    } else {
        let front = lines.drop_last();
        let l = lines.last();
        assert forall|i: int| 0 <= i < front.len() implies line_ok(#[trigger] front[i]) by {
            assert(front[i] == lines[i]);
        }
        assert(line_ok(lines[lines.len() - 1]));
        lemma_split_of_lines_text(front);
        let a = lines_text(front);
        lemma_split_concat(no_split(), a + l, seq!['\n']);
        lemma_split_concat(no_split(), a, l);
        lemma_split_plain(split_from(no_split(), a), l);
        let mid = LineSplit { done: front, open: Seq::<char>::empty() + l };
        assert(Seq::<char>::empty() + l =~= l);
        lemma_split_one(mid, '\n');
        assert(front.push(l) =~= lines);
    }
}

/// Reading back the text of proper lines gives the same lines.
pub proof fn lemma_text_lines_of_lines_text(lines: Seq<Seq<char>>)
    requires
        forall|i: int| 0 <= i < lines.len() ==> line_ok(#[trigger] lines[i]),
    ensures
        text_lines(lines_text(lines)) == lines,
{
    lemma_split_of_lines_text(lines);
}

} // verus!
