//! Big-endian UTF-16 code units: conversion between byte streams and unit sequences.
use vstd::prelude::*;

verus! {

/// The big-endian 16-bit unit formed by two bytes.
pub open spec fn be_unit(hi: u8, lo: u8) -> u16 {
    (hi as int * 256 + lo as int) as u16
}

/// A byte stream read as consecutive big-endian 16-bit units; a trailing odd byte is ignored.
pub open spec fn be_units(data: Seq<u8>) -> Seq<u16> {
    Seq::new(data.len() / 2, |i: int| be_unit(data[2 * i], data[2 * i + 1]))
}

/// Units written back as big-endian bytes (two bytes per unit).
pub open spec fn be_bytes(units: Seq<u16>) -> Seq<u8> {
    Seq::new(
        2 * units.len(),
        |j: int|
            if j % 2 == 0 {
                (units[j / 2] / 256) as u8
            } else {
                (units[j / 2] % 256) as u8
            },
    )
}

/// Decodes a byte stream into big-endian units.
pub fn to_be_units(data: &[u8]) -> (units: Vec<u16>)
    ensures
        units@ == be_units(data@),
{
    let len = data.len();
    let n = len / 2;
    let mut units: Vec<u16> = Vec::with_capacity(n);
    let mut i: usize = 0;
    while i < n
        invariant
            len == data@.len(),
            n == len / 2,
            i <= n,
            units@ =~= be_units(data@).take(i as int),
        decreases n - i,
    {
        assert(2 * i + 1 < data@.len());
        let j = i + i;
        let hi = data[j];
        let lo = data[j + 1];
        let unit: u16 = hi as u16 * 256 + lo as u16;
        units.push(unit);
        i = i + 1;
        assert(units@ =~= be_units(data@).take(i as int));
    }
    assert(be_units(data@).take(n as int) =~= be_units(data@));
    units
}

/// Encodes `units[start..end]` as big-endian bytes.
pub fn be_bytes_of(units: &[u16], start: usize, end: usize) -> (bytes: Vec<u8>)
    requires
        start <= end <= units@.len(),
    ensures
        bytes@ == be_bytes(units@.subrange(start as int, end as int)),
{
    let ghost part = units@.subrange(start as int, end as int);
    let mut bytes: Vec<u8> = Vec::new();
    let mut i: usize = start;
    while i < end
        invariant
            start <= i <= end <= units@.len(),
            part == units@.subrange(start as int, end as int),
            bytes@ =~= be_bytes(part).take(2 * (i - start)),
        decreases end - i,
    {
        let unit = units[i];
        bytes.push((unit / 256) as u8);
        bytes.push((unit % 256) as u8);
        i = i + 1;
        assert(bytes@ =~= be_bytes(part).take(2 * (i - start)));
    }
    assert(be_bytes(part).take(2 * (end - start)) =~= be_bytes(part));
    bytes
}

/// Reading back the big-endian bytes of some units gives the same units.
pub proof fn lemma_be_units_of_be_bytes(units: Seq<u16>)
    ensures
        be_units(be_bytes(units)) == units,
{
    let b = be_bytes(units);
    assert forall|i: int| 0 <= i < units.len() implies be_unit(b[2 * i], b[2 * i + 1]) == units[i] by {
        assert((2 * i) % 2 == 0);
        assert((2 * i + 1) % 2 == 1);
        assert((2 * i) / 2 == i);
        assert((2 * i + 1) / 2 == i);
        let u = units[i];
        assert((u / 256) as int * 256 + (u % 256) as int == u as int);
    }
    assert(be_units(b) =~= units);
}

/// An even-length byte stream is the big-endian bytes of its own units.
pub proof fn lemma_be_bytes_of_be_units(data: Seq<u8>)
    requires
        data.len() % 2 == 0,
    ensures
        be_bytes(be_units(data)) == data,
{
    let u = be_units(data);
    let b = be_bytes(u);
    assert forall|j: int| 0 <= j < data.len() implies b[j] == data[j] by {
        let i = j / 2;
        assert(0 <= i < u.len());
        let hi = data[2 * i];
        let lo = data[2 * i + 1];
        assert(u[i] == be_unit(hi, lo));
        assert(hi as int * 256 + lo as int <= 0xffff) by (nonlinear_arith)
            requires
                hi <= 255,
                lo <= 255,
        ;
        let w = hi as int * 256 + lo as int;
        assert(w / 256 == hi as int && w % 256 == lo as int) by (nonlinear_arith)
            requires
                w == hi as int * 256 + lo as int,
                0 <= lo < 256,
                0 <= hi,
        ;
        if j % 2 == 0 {
            assert(j == 2 * i);
        } else {
            assert(j == 2 * i + 1);
        }
    }
    assert(b =~= data);
}

/// The big-endian bytes of the first `n` units open the bytes of all of them.
pub proof fn lemma_be_bytes_take(units: Seq<u16>, n: int)
    requires
        0 <= n <= units.len(),
    ensures
        be_bytes(units).take(2 * n) == be_bytes(units.take(n)),
{
    let a = be_bytes(units).take(2 * n);
    let t = be_bytes(units.take(n));
    assert forall|j: int| 0 <= j < 2 * n implies a[j] == t[j] by {
        assert(0 <= j / 2 < n);
    }
    assert(a =~= t);
}

/// The two big-endian bytes of unit `i`.
pub proof fn lemma_be_bytes_at(units: Seq<u16>, i: int)
    requires
        0 <= i < units.len(),
    ensures
        be_bytes(units)[2 * i] == (units[i] / 256) as u8,
        be_bytes(units)[2 * i + 1] == (units[i] % 256) as u8,
{
    assert((2 * i) % 2 == 0 && (2 * i) / 2 == i);
    assert((2 * i + 1) % 2 == 1 && (2 * i + 1) / 2 == i);
}

/// Bytes read as units `ctx`, then `open`, ..., then `close`: their first bytes are those of
/// `ctx` and `open`, their last two those of `close`.
pub proof fn lemma_framed_bytes(b: Seq<u8>, ctx: Seq<u16>, open: u16, close: u16)
    requires
        b.len() == 2 * be_units(b).len(),
        ctx.len() + 2 <= be_units(b).len(),
        be_units(b).take(ctx.len() as int) == ctx,
        be_units(b)[ctx.len() as int] == open,
        be_units(b).last() == close,
    ensures
        b.take(2 * ctx.len() as int + 2) == be_bytes(ctx) + seq![(open / 256) as u8, (open % 256) as u8],
        b.subrange(b.len() - 2, b.len() as int) == seq![(close / 256) as u8, (close % 256) as u8],
{
    let r = be_units(b);
    let n = ctx.len() as int;
    let t = r.take(n + 1);
    let bt = be_bytes(t);
    let head = be_bytes(ctx) + seq![(open / 256) as u8, (open % 256) as u8];
    assert(b.take(2 * n + 2) == bt) by {
        lemma_be_bytes_of_be_units(b);
        lemma_be_bytes_take(r, n + 1);
    }
    assert(bt.take(2 * n) == be_bytes(ctx)) by {
        lemma_be_bytes_take(t, n);
        assert(t.take(n) =~= ctx);
    }
    assert(bt[2 * n] == head[2 * n] && bt[2 * n + 1] == head[2 * n + 1]) by {
        lemma_be_bytes_at(t, n);
    }
    assert(bt.len() == 2 * n + 2);
    assert forall|j: int| 0 <= j < 2 * n + 2 implies bt[j] == head[j] by {
        if j < 2 * n {
            assert(bt.take(2 * n)[j] == bt[j]);
        }
    }
    assert(bt =~= head);
    let k = r.len() - 1;
    assert(b[2 * k] == (close / 256) as u8 && b[2 * k + 1] == (close % 256) as u8) by {
        lemma_be_bytes_of_be_units(b);
        lemma_be_bytes_at(r, k);
    }
    assert(b.subrange(b.len() - 2, b.len() as int) =~= seq![
        (close / 256) as u8,
        (close % 256) as u8,
    ]);
}

/// A copy of `data[start..end]`.
pub fn slice_bytes(data: &[u8], start: usize, end: usize) -> (r: Vec<u8>)
    requires
        start <= end <= data@.len(),
    ensures
        r@ == data@.subrange(start as int, end as int),
{
    let mut r: Vec<u8> = Vec::new();
    let mut i = start;
    while i < end
        invariant
            start <= i <= end <= data@.len(),
            r@ =~= data@.subrange(start as int, i as int),
        decreases end - i,
    {
        r.push(data[i]);
        i = i + 1;
    }
    r
}

} // verus!
