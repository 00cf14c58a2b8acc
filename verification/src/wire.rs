//! Fixed-width big-endian integers, the only numbers on the wire.

use vstd::prelude::*;

verus! {

/// 256 to the power `n`: the number of values that `n` bytes can hold.
pub open spec fn pow256(n: nat) -> int
    decreases n,
{
    if n == 0 {
        1
    } else {
        256 * pow256((n - 1) as nat)
    }
}

/// The `width` low-order base-256 digits of `n`, most significant first.
pub open spec fn be_bytes(n: int, width: nat) -> Seq<u8>
    decreases width,
{
    if width == 0 {
        Seq::empty()
    } else {
        be_bytes(n / 256, (width - 1) as nat).push((n % 256) as u8)
    }
}

/// The number whose base-256 digits, most significant first, are `s`.
pub open spec fn be_value(s: Seq<u8>) -> int
    decreases s.len(),
{
    if s.len() == 0 {
        0
    } else {
        256 * be_value(s.drop_last()) + s.last() as int
    }
}

/// The unsigned number that stands for `x` in two's complement on `width` bytes.
pub open spec fn twos(x: int, width: nat) -> int {
    if x >= 0 {
        x
    } else {
        x + pow256(width)
    }
}

/// The signed number that `n` stands for in two's complement on `width` bytes.
pub open spec fn untwos(n: int, width: nat) -> int {
    if 2 * n < pow256(width) {
        n
    } else {
        n - pow256(width)
    }
}

/// The number of values that one, two, four and eight bytes can hold.
pub proof fn lemma_pow256_values()
    ensures
        pow256(0) == 1,
        pow256(1) == 0x100,
        pow256(2) == 0x1_0000,
        pow256(4) == 0x1_0000_0000,
        pow256(8) == 0x1_0000_0000_0000_0000,
{
    reveal_with_fuel(pow256, 9);
}

/// More bytes hold at least as many values, and at least one.
pub proof fn lemma_pow256_monotonic(a: nat, b: nat)
    requires
        a <= b,
    ensures
        0 < pow256(a) <= pow256(b),
    decreases b,
{
    if b == 0 {
    } else if a == b {
        lemma_pow256_monotonic((a - 1) as nat, (b - 1) as nat);
    } else {
        lemma_pow256_monotonic(a, (b - 1) as nat);
    }
}

/// A number written on `width` bytes takes `width` bytes.
pub proof fn lemma_be_bytes_len(n: int, width: nat)
    ensures
        be_bytes(n, width).len() == width,
    decreases width,
{
    if width > 0 {
        lemma_be_bytes_len(n / 256, (width - 1) as nat);
    }
}

/// The number that bytes hold is below the number of values that so many
/// bytes can hold.
pub proof fn lemma_be_value_bound(s: Seq<u8>)
    ensures
        0 <= be_value(s) < pow256(s.len()),
    decreases s.len(),
{
    if s.len() > 0 {
        lemma_be_value_bound(s.drop_last());
    }
}

/// Reading back what was written gives the number that was written.
pub proof fn lemma_be_value_of_bytes(n: int, width: nat)
    requires
        0 <= n < pow256(width),
    ensures
        be_value(be_bytes(n, width)) == n,
    decreases width,
{
    if width > 0 {
        let w = (width - 1) as nat;
        lemma_be_value_of_bytes(n / 256, w);
        lemma_be_bytes_len(n / 256, w);
        let s = be_bytes(n, width);
        assert(s.drop_last() =~= be_bytes(n / 256, w));
        assert(s.last() == (n % 256) as u8);
    }
}

/// Writing what was read gives the bytes that were read.
pub proof fn lemma_be_bytes_of_value(s: Seq<u8>)
    ensures
        be_bytes(be_value(s), s.len()) == s,
    decreases s.len(),
{
    if s.len() > 0 {
        lemma_be_bytes_of_value(s.drop_last());
        lemma_be_value_bound(s.drop_last());
        let n = be_value(s);
        assert(n / 256 == be_value(s.drop_last()));
        assert(n % 256 == s.last() as int);
        assert(be_bytes(n, s.len()) =~= s);
    }
}

/// A signed number that fits `width` bytes is read back from its bits.
pub proof fn lemma_twos_round_trip(x: int, width: nat)
    requires
        -pow256(width) <= 2 * x < pow256(width),
    ensures
        0 <= twos(x, width) < pow256(width),
        untwos(twos(x, width), width) == x,
{
}

/// Bits of `width` bytes are the bits of the signed number that they stand
/// for.
pub proof fn lemma_untwos_round_trip(n: int, width: nat)
    requires
        0 <= n < pow256(width),
    ensures
        -pow256(width) <= 2 * untwos(n, width) < pow256(width),
        twos(untwos(n, width), width) == n,
{
}

/// Appends the `width` low-order bytes of `n`, most significant first.
pub fn push_be(out: &mut Vec<u8>, n: u64, width: usize)
    requires
        width <= 8,
    ensures
        final(out)@ == old(out)@ + be_bytes(n as int, width as nat),
    decreases width,
{
    if width > 0 {
        push_be(out, n / 256, width - 1);
        out.push((n % 256) as u8);
        assert(final(out)@ =~= old(out)@ + be_bytes(n as int, width as nat));
    } else {
        assert(final(out)@ =~= old(out)@ + be_bytes(n as int, width as nat));
    }
}

/// Reads the `width` bytes that start at `pos` as one number.
pub fn read_be(bytes: &[u8], pos: usize, width: usize) -> (n: u64)
    requires
        width <= 8,
        pos + width <= bytes@.len(),
    ensures
        n == be_value(bytes@.subrange(pos as int, pos + width)),
{
    let mut acc: u64 = 0;
    let mut i: usize = 0;
    while i < width
        invariant
            i <= width <= 8,
            pos + width <= bytes@.len(),
            acc == be_value(bytes@.subrange(pos as int, pos + i)),
        decreases width - i,
    {
        assert(pos + i < bytes.len());
        let b = bytes[pos + i];
        proof {
            let s = bytes@.subrange(pos as int, pos + i + 1);
            assert(s.drop_last() =~= bytes@.subrange(pos as int, pos + i));
            assert(s.last() == b);
            lemma_be_value_bound(s);
            lemma_pow256_monotonic((i + 1) as nat, 8);
            lemma_pow256_values();
        }
        acc = acc * 256 + b as u64;
        i = i + 1;
    }
    acc
}

/// The bits of a signed number of `width` bytes.
pub fn signed_bits(x: i64, width: usize) -> (n: u64)
    requires
        width == 1 || width == 2 || width == 4 || width == 8,
        -pow256(width as nat) <= 2 * x < pow256(width as nat),
    ensures
        n == twos(x as int, width as nat),
{
    proof {
        lemma_pow256_values();
    }
    if x >= 0 {
        x as u64
    } else if width == 1 {
        (x + 0x100) as u64
    } else if width == 2 {
        (x + 0x1_0000) as u64
    } else if width == 4 {
        (x + 0x1_0000_0000) as u64
    } else {
        ((x + i64::MAX) + 1) as u64 + 0x8000_0000_0000_0000
    }
}

/// The signed number of `width` bytes that has the bits `n`.
pub fn signed_from_bits(n: u64, width: usize) -> (x: i64)
    requires
        width == 1 || width == 2 || width == 4 || width == 8,
        n < pow256(width as nat),
    ensures
        x == untwos(n as int, width as nat),
{
    proof {
        lemma_pow256_values();
    }
    if width == 1 {
        if n < 0x80 {
            n as i64
        } else {
            n as i64 - 0x100
        }
    } else if width == 2 {
        if n < 0x8000 {
            n as i64
        } else {
            n as i64 - 0x1_0000
        }
    } else if width == 4 {
        if n < 0x8000_0000 {
            n as i64
        } else {
            n as i64 - 0x1_0000_0000
        }
    } else {
        if n < 0x8000_0000_0000_0000 {
            n as i64
        } else {
            ((n - 0x8000_0000_0000_0000) as i64 - i64::MAX) - 1
        }
    }
}

} // verus!

verus! {

/// The bytes `s` stand in `b` from place `pos` on.
pub open spec fn holds_at(b: Seq<u8>, pos: int, s: Seq<u8>) -> bool {
    &&& 0 <= pos
    &&& pos + s.len() <= b.len()
    &&& b.subrange(pos, pos + s.len()) == s
}

/// Two runs of bytes stand one after the other exactly where their
/// concatenation stands.
pub proof fn lemma_holds_at_concat(b: Seq<u8>, pos: int, x: Seq<u8>, y: Seq<u8>)
    ensures
        holds_at(b, pos, x + y) <==> holds_at(b, pos, x) && holds_at(b, pos + x.len(), y),
{
    let xy = x + y;
    if holds_at(b, pos, xy) {
        let whole = b.subrange(pos, pos + xy.len());
        assert forall|i: int| 0 <= i < x.len() implies b[pos + i] == x[i] by {
            assert(whole[i] == xy[i]);
        }
        assert(b.subrange(pos, pos + x.len()) =~= x);
        assert forall|i: int| 0 <= i < y.len() implies b[pos + x.len() + i] == y[i] by {
            assert(whole[x.len() + i] == xy[x.len() + i]);
        }
        assert(b.subrange(pos + x.len(), pos + x.len() + y.len()) =~= y);
    }
    if holds_at(b, pos, x) && holds_at(b, pos + x.len(), y) {
        let first = b.subrange(pos, pos + x.len());
        let second = b.subrange(pos + x.len(), pos + x.len() + y.len());
        assert forall|i: int| 0 <= i < xy.len() implies b[pos + i] == xy[i] by {
            if i < x.len() {
                assert(first[i] == x[i]);
            } else {
                assert(second[i - x.len()] == y[i - x.len()]);
            }
        }
        assert(b.subrange(pos, pos + xy.len()) =~= xy);
    }
}

/// What stands in `b` from `from` to `to` stands there.
pub proof fn lemma_holds_at_subrange(b: Seq<u8>, from: int, to: int)
    requires
        0 <= from <= to <= b.len(),
    ensures
        holds_at(b, from, b.subrange(from, to)),
{
    assert(b.subrange(from, from + b.subrange(from, to).len()) =~= b.subrange(from, to));
}

/// Appends the bytes of `src`.
pub fn push_all(out: &mut Vec<u8>, src: &[u8])
    ensures
        final(out)@ == old(out)@ + src@,
{
    let mut i: usize = 0;
    while i < src.len()
        invariant
            i <= src@.len(),
            out@ == old(out)@ + src@.take(i as int),
        decreases src@.len() - i,
    {
        out.push(src[i]);
        assert(out@ =~= old(out)@ + src@.take(i + 1));
        i = i + 1;
    }
    assert(src@.take(src@.len() as int) =~= src@);
}

/// A fresh vector with the bytes of `src` from `from` to `to`.
pub fn copy_range(src: &[u8], from: usize, to: usize) -> (r: Vec<u8>)
    requires
        from <= to <= src@.len(),
    ensures
        r@ == src@.subrange(from as int, to as int),
{
    let mut out: Vec<u8> = Vec::new();
    let mut i: usize = from;
    while i < to
        invariant
            from <= i <= to <= src@.len(),
            out@ == src@.subrange(from as int, i as int),
        decreases to - i,
    {
        out.push(src[i]);
        assert(out@ =~= src@.subrange(from as int, i + 1));
        i = i + 1;
    }
    out
}

} // verus!
