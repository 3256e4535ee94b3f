//! Big-endian integers, as sequences of bytes.

use vstd::prelude::*;

verus! {

/// The lowest `width` base-256 digits of `v`, most significant first.
pub open spec fn be_bytes(v: nat, width: nat) -> Seq<u8>
    decreases width,
{
    if width == 0 {
        seq![]
    } else {
        be_bytes(v / 256, (width - 1) as nat).push((v % 256) as u8)
    }
}

/// The number whose base-256 digits, most significant first, are `s`.
pub open spec fn be_value(s: Seq<u8>) -> nat
    decreases s.len(),
{
    if s.len() == 0 {
        0
    } else {
        be_value(s.drop_last()) * 256 + s.last() as nat
    }
}

/// How many numbers `width` bytes can hold.
pub open spec fn span(width: nat) -> nat
    decreases width,
{
    if width == 0 {
        1
    } else {
        256 * span((width - 1) as nat)
    }
}

/// Encoding to `width` bytes always gives `width` bytes.
pub proof fn be_bytes_len(v: nat, width: nat)
    ensures
        be_bytes(v, width).len() == width,
    decreases width,
{
    if width > 0 {
        be_bytes_len(v / 256, (width - 1) as nat);
    }
}

/// A number that fits comes back from its own bytes.
pub proof fn be_round_trip(v: nat, width: nat)
    requires
        v < span(width),
    ensures
        be_value(be_bytes(v, width)) == v,
    decreases width,
{
    if width > 0 {
        be_round_trip(v / 256, (width - 1) as nat);
        let s = be_bytes(v, width);
        assert(s.drop_last() =~= be_bytes(v / 256, (width - 1) as nat));
    }
}

/// What `s.len()` bytes hold fits in `s.len()` bytes.
pub proof fn be_value_fits(s: Seq<u8>)
    ensures
        be_value(s) < span(s.len()),
    decreases s.len(),
{
    if s.len() > 0 {
        be_value_fits(s.drop_last());
    }
}

/// Bytes come back from the number they spell.
pub proof fn be_bytes_of_value(s: Seq<u8>)
    ensures
        be_bytes(be_value(s), s.len()) == s,
    decreases s.len(),
{
    if s.len() > 0 {
        be_bytes_of_value(s.drop_last());
        assert(be_bytes(be_value(s), s.len()) =~= s);
    } else {
        assert(be_bytes(be_value(s), s.len()) =~= s);
    }
}

/// The spans of the three integer widths on the wire.
pub proof fn span_values()
    ensures
        span(1) == 0x100,
        span(2) == 0x1_0000,
        span(4) == 0x1_0000_0000,
        span(8) == 0x1_0000_0000_0000_0000,
{
    reveal_with_fuel(span, 9);
}

/// Appends a 16-bit integer.
pub fn put_u16(out: &mut Vec<u8>, v: u16)
    ensures
        final(out)@ == old(out)@ + be_bytes(v as nat, 2),
{
    proof {
        reveal_with_fuel(be_bytes, 3);
    }
    out.push((v / 256) as u8);
    out.push((v % 256) as u8);
}

/// Appends a 32-bit integer.
pub fn put_u32(out: &mut Vec<u8>, v: u32)
    ensures
        final(out)@ == old(out)@ + be_bytes(v as nat, 4),
{
    put_u16(out, (v / 0x1_0000) as u16);
    put_u16(out, (v % 0x1_0000) as u16);
    proof {
        span_values();
        be_bytes_join((v / 0x1_0000) as nat, 2, (v % 0x1_0000) as nat, 2);
    }
}

/// Appends a 64-bit integer.
pub fn put_u64(out: &mut Vec<u8>, v: u64)
    ensures
        final(out)@ == old(out)@ + be_bytes(v as nat, 8),
{
    put_u32(out, (v / 0x1_0000_0000) as u32);
    put_u32(out, (v % 0x1_0000_0000) as u32);
    proof {
        span_values();
        be_bytes_join((v / 0x1_0000_0000) as nat, 4, (v % 0x1_0000_0000) as nat, 4);
    }
}

/// Reads a 16-bit integer at `at`.
pub fn get_u16(s: &[u8], at: usize) -> (v: u16)
    requires
        at + 2 <= s@.len(),
    ensures
        v == be_value(s@.subrange(at as int, at + 2)),
{
    proof {
        reveal_with_fuel(be_value, 3);
    }
    assert(s@.len() == s.len());
    s[at] as u16 * 256 + s[at + 1] as u16
}

/// Reads a 32-bit integer at `at`.
pub fn get_u32(s: &[u8], at: usize) -> (v: u32)
    requires
        at + 4 <= s@.len(),
    ensures
        v == be_value(s@.subrange(at as int, at + 4)),
{
    assert(s@.len() == s.len());
    let hi: u16 = get_u16(s, at);
    let lo: u16 = get_u16(s, at + 2);
    let v: u32 = hi as u32 * 0x1_0000 + lo as u32;
    proof {
        be_value_joins(s@.subrange(at as int, at + 2), s@.subrange(at + 2, at + 4));
        assert(s@.subrange(at as int, at + 2) + s@.subrange(at + 2, at + 4) =~= s@.subrange(
            at as int,
            at + 4,
        ));
        span_values();
    }
    v
}

/// Reads a 64-bit integer at `at`.
pub fn get_u64(s: &[u8], at: usize) -> (v: u64)
    requires
        at + 8 <= s@.len(),
    ensures
        v == be_value(s@.subrange(at as int, at + 8)),
{
    assert(s@.len() == s.len());
    let hi: u32 = get_u32(s, at);
    let lo: u32 = get_u32(s, at + 4);
    let v: u64 = hi as u64 * 0x1_0000_0000 + lo as u64;
    proof {
        be_value_joins(s@.subrange(at as int, at + 4), s@.subrange(at + 4, at + 8));
        assert(s@.subrange(at as int, at + 4) + s@.subrange(at + 4, at + 8) =~= s@.subrange(
            at as int,
            at + 8,
        ));
        span_values();
    }
    v
}

/// The bytes of a number, from its upper and its lower digits.
pub proof fn be_bytes_join(hi: nat, wide: nat, lo: nat, width: nat)
    requires
        lo < span(width),
    ensures
        be_bytes(hi * span(width) + lo, wide + width) == be_bytes(hi, wide) + be_bytes(lo, width),
    decreases width,
{
    let v = hi * span(width) + lo;
    if width == 0 {
        assert(v == hi) by (nonlinear_arith)
            requires
                v == hi * 1 + 0,
        ;
        assert(be_bytes(hi, wide) + be_bytes(lo, width) =~= be_bytes(hi, wide));
    } else {
        let small = span((width - 1) as nat);
        be_bytes_join(hi, wide, lo / 256, (width - 1) as nat);
        assert(hi * (256 * small) == 256 * (hi * small)) by (nonlinear_arith);
        assert(v / 256 == hi * small + lo / 256);
        assert(v % 256 == lo % 256);
        assert(be_bytes(v, wide + width) =~= be_bytes(hi, wide) + be_bytes(lo, width));
    }
}

/// The value of two runs of bytes, one after the other.
pub proof fn be_value_joins(a: Seq<u8>, b: Seq<u8>)
    ensures
        be_value(a + b) == be_value(a) * span(b.len()) + be_value(b),
    decreases b.len(),
{
    if b.len() == 0 {
        assert(a + b =~= a);
        assert(be_value(a) * 1 == be_value(a));
    } else {
        let va = be_value(a);
        let small = span((b.len() - 1) as nat);
        be_value_joins(a, b.drop_last());
        assert((a + b).drop_last() =~= a + b.drop_last());
        assert((va * small) * 256 == va * (256 * small)) by (nonlinear_arith);
        assert(span(b.len()) == 256 * small);
        assert((a + b).last() == b.last());
    }
}

/// One byte is worth itself.
pub proof fn value_of_one(s: Seq<u8>)
    requires
        s.len() == 1,
    ensures
        be_value(s) == s[0],
{
    reveal_with_fuel(be_value, 2);
}

/// Of two bytes the first is worth 256 times as much as the second.
pub proof fn value_of_two(s: Seq<u8>)
    requires
        s.len() == 2,
    ensures
        be_value(s) == 256 * s[0] + s[1],
{
    reveal_with_fuel(be_value, 3);
    assert(s.drop_last()[0] == s[0]);
}

} // verus!
