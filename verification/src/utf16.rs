//! UTF-16 decoding of little-endian unit sequences.
use vstd::prelude::*;

use crate::text::char_from_u32;

verus! {

/// The little-endian 16-bit unit formed by two bytes.
pub open spec fn le_unit(lo: u8, hi: u8) -> u16 {
    (lo as int + 256 * hi as int) as u16
}

/// The little-endian 32-bit value at `data[off..off + 4]`.
pub open spec fn le_u32(data: Seq<u8>, off: int) -> int {
    data[off] as int + 256 * (data[off + 1] as int + 256 * (data[off + 2] as int + 256 * data[off
        + 3] as int))
}

/// `data[off..off + 2 * n]` read as little-endian units.
pub open spec fn le_units(data: Seq<u8>, off: int, n: int) -> Seq<u16> {
    Seq::new(n as nat, |i: int| le_unit(data[off + 2 * i], data[off + 2 * i + 1]))
}

pub fn read_le_u32(data: &[u8], off: usize) -> (r: u32)
    requires
        off + 4 <= data@.len(),
    ensures
        r as int == le_u32(data@, off as int),
{
    data[off] as u32 + 256 * (data[off + 1] as u32 + 256 * (data[off + 2] as u32 + 256 * data[off
        + 3] as u32))
}

pub fn read_le_units(data: &[u8], off: usize, n: usize) -> (r: Vec<u16>)
    requires
        off + 2 * n <= data@.len(),
    ensures
        r@ == le_units(data@, off as int, n as int),
{
    let dl = data.len();
    let mut r: Vec<u16> = Vec::new();
    let mut i: usize = 0;
    while i < n
        invariant
            dl == data@.len(),
            off + 2 * n <= data@.len(),
            i <= n,
            r@ =~= le_units(data@, off as int, n as int).take(i as int),
        decreases n - i,
    {
        let p = off + 2 * i;
        let unit: u16 = data[p] as u16 + 256 * data[p + 1] as u16;
        r.push(unit);
        i = i + 1;
        assert(r@ =~= le_units(data@, off as int, n as int).take(i as int));
    }
    assert(le_units(data@, off as int, n as int).take(n as int) =~= le_units(data@, off as int, n as int));
    r
}

/// The character of a surrogate pair.
pub open spec fn pair_char(hi: u16, lo: u16) -> char {
    (0x10000 + (hi - 0xD800) * 0x400 + (lo - 0xDC00)) as char
}

/// UTF-16 decoding: `None` when an unpaired surrogate occurs (as `String::from_utf16` fails).
pub open spec fn utf16_decode(s: Seq<u16>) -> Option<Seq<char>>
    decreases s.len(),
{
    if s.len() == 0 {
        Some(Seq::empty())
    } else {
        let c = s[0];
        if c < 0xD800 || c > 0xDFFF {
            match utf16_decode(s.drop_first()) {
                Some(t) => Some(seq![c as char] + t),
                None => None,
            }
        } else if c <= 0xDBFF && s.len() >= 2 && 0xDC00 <= s[1] && s[1] <= 0xDFFF {
            match utf16_decode(s.skip(2)) {
                Some(t) => Some(seq![pair_char(c, s[1])] + t),
                None => None,
            }
        } else {
            None
        }
    }
}

/// `Some(prefix + t)` when `rest` is `Some(t)`.
pub open spec fn prepend_opt(prefix: Seq<char>, rest: Option<Seq<char>>) -> Option<Seq<char>> {
    match rest {
        Some(t) => Some(prefix + t),
        None => None,
    }
}

/// Decodes UTF-16 units (see `utf16_decode`).
pub fn decode_utf16(s: &[u16]) -> (r: Option<Vec<char>>)
    ensures
        match utf16_decode(s@) {
            None => r is None,
            Some(t) => r matches Some(v) && v@ == t,
        },
{
    let mut out: Vec<char> = Vec::new();
    let mut i: usize = 0;
    assert(s@.skip(0) =~= s@);
    while i < s.len()
        invariant
            i <= s@.len(),
            utf16_decode(s@) == prepend_opt(out@, utf16_decode(s@.skip(i as int))),
        decreases s@.len() - i,
    {
        let c = s[i];
        let ghost rest = s@.skip(i as int);
        if c < 0xD800 || c > 0xDFFF {
            assert(rest.drop_first() =~= s@.skip(i + 1));
            match char_from_u32(c as u32) {
                Some(ch) => {
                    let ghost before = out@;
                    out.push(ch);
                    assert(before + seq![c as char] =~= out@);
                    proof {
                        match utf16_decode(s@.skip(i + 1)) {
                            Some(t) => {
                                assert(before + (seq![c as char] + t) =~= out@ + t);
                            },
                            None => {},
                        }
                    }
                },
                None => {
                    assert(false);
                },
            }
            i = i + 1;
        } else if c <= 0xDBFF && i + 1 < s.len() && 0xDC00 <= s[i + 1] && s[i + 1] <= 0xDFFF {
            let lo = s[i + 1];
            assert(rest.skip(2) =~= s@.skip(i + 2));
            let v: u32 = 0x10000 + (c as u32 - 0xD800) * 0x400 + (lo as u32 - 0xDC00);
            match char_from_u32(v) {
                Some(ch) => {
                    let ghost before = out@;
                    out.push(ch);
                    proof {
                        match utf16_decode(s@.skip(i + 2)) {
                            Some(t) => {
                                assert(before + (seq![pair_char(c, lo)] + t) =~= out@ + t);
                            },
                            None => {},
                        }
                    }
                },
                None => {
                    assert(false);
                },
            }
            i = i + 2;
        } else {
            return None;
        }
    }
    assert(s@.skip(i as int) =~= Seq::<u16>::empty());
    assert(out@ + Seq::<char>::empty() =~= out@);
    Some(out)
}

} // verus!
