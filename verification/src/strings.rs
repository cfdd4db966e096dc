//! Sequences of strings: views and joining.
use vstd::prelude::*;

use crate::text::{chars_of, extend_chars, string_of};

verus! {

/// Character views of strings.
pub open spec fn strings_view(v: Seq<String>) -> Seq<Seq<char>> {
    v.map_values(|s: String| s@)
}

/// The parts joined with `sep` between consecutive parts (`[T]::join`).
pub open spec fn join_with(parts: Seq<Seq<char>>, sep: Seq<char>) -> Seq<char>
    decreases parts.len(),
{
    if parts.len() == 0 {
        Seq::empty()
    } else if parts.len() == 1 {
        parts[0]
    } else {
        join_with(parts.drop_last(), sep) + sep + parts.last()
    }
}

/// The strings joined with `sep` between consecutive strings.
pub fn join_strings(parts: &[String], sep: &str) -> (r: String)
    ensures
        r@ == join_with(strings_view(parts@), sep@),
{
    let sep_chars = chars_of(sep);
    let mut out: Vec<char> = Vec::new();
    let mut i: usize = 0;
    while i < parts.len()
        invariant
            i <= parts@.len(),
            sep_chars@ == sep@,
            out@ == join_with(strings_view(parts@).take(i as int), sep@),
        decreases parts@.len() - i,
    {
        let ghost prev = strings_view(parts@).take(i as int);
        if i > 0 {
            extend_chars(&mut out, sep_chars.as_slice());
        }
        let p = chars_of(parts[i].as_str());
        extend_chars(&mut out, p.as_slice());
        i = i + 1;
        assert(strings_view(parts@).take(i as int).drop_last() =~= prev);
        if i == 1 {
            assert(out@ =~= join_with(strings_view(parts@).take(i as int), sep@));
        }
    }
    assert(strings_view(parts@).take(i as int) =~= strings_view(parts@));
    string_of(out.as_slice())
}

/// Adds `s` at the end of `v`, keeping the character views in step.
pub fn push_string(v: &mut Vec<String>, s: String)
    ensures
        strings_view(final(v)@) == strings_view(old(v)@).push(s@),
{
    let ghost sv = s@;
    v.push(s);
    assert(strings_view(v@) =~= strings_view(old(v)@).push(sv));
}

} // verus!
