//! Big-endian integers, the only number format that font files use.

use vstd::prelude::*;

verus! {

/// The two big-endian bytes of `v` modulo 2^16 (two's complement for a negative `v`).
#[verifier::opaque]
pub open spec fn be16(v: int) -> Seq<u8> {
    seq![(v / 0x100 % 0x100) as u8, (v % 0x100) as u8]
}

/// A 16-bit number takes two bytes.
pub broadcast proof fn be16_len(v: int)
    ensures
        #[trigger] be16(v).len() == 2,
{
    reveal(be16);
}

/// The four big-endian bytes of `v` modulo 2^32 (two's complement for a negative `v`).
pub open spec fn be32(v: int) -> Seq<u8> {
    be16(v / 0x1_0000) + be16(v)
}

/// The eight big-endian bytes of `v` modulo 2^64 (two's complement for a negative `v`).
pub open spec fn be64(v: int) -> Seq<u8> {
    be32(v / 0x1_0000_0000) + be32(v)
}

/// The number that two big-endian bytes stand for.
pub open spec fn read16(s: Seq<u8>) -> int {
    s[0] * 0x100 + s[1]
}

/// The number that four big-endian bytes stand for.
pub open spec fn read32(s: Seq<u8>) -> int {
    read16(s) * 0x1_0000 + read16(s.skip(2))
}

/// Reading back what [`be16`] wrote gives the number modulo 2^16.
pub proof fn be16_round_trip(v: int, rest: Seq<u8>)
    ensures
        read16(be16(v) + rest) == v % 0x1_0000,
        (be16(v) + rest).skip(2) == rest,
{
    reveal(be16);
    let s = be16(v) + rest;
    assert(s[0] == be16(v)[0] && s[1] == be16(v)[1]);
    assert(s.skip(2) =~= rest);
}

/// Reading back what [`be32`] wrote gives the number modulo 2^32.
pub proof fn be32_round_trip(v: int, rest: Seq<u8>)
    ensures
        read32(be32(v) + rest) == v % 0x1_0000_0000,
        (be32(v) + rest).skip(4) == rest,
{
    broadcast use be16_len;

    let s = be32(v) + rest;
    let tail = be16(v) + rest;
    assert(s =~= be16(v / 0x1_0000) + tail);
    be16_round_trip(v / 0x1_0000, tail);
    be16_round_trip(v, rest);
    assert(s.skip(4) =~= rest);
}

/// Only the low 16 bits of a number show in [`be16`].
pub proof fn be16_is_periodic(v: int, q: int)
    ensures
        be16(v + 0x1_0000 * q) == be16(v),
{
    reveal(be16);
    let w = v + 0x1_0000 * q;
    assert(w / 0x100 == v / 0x100 + 0x100 * q);
    assert(w % 0x100 == v % 0x100);
    assert((v / 0x100 + 0x100 * q) % 0x100 == (v / 0x100) % 0x100);
}

/// Dropping the high bits of a number leaves its low four bytes as they were.
pub proof fn be32_of_truncated(v: usize)
    ensures
        be32((v as u32) as int) == be32(v as int),
{
    let wide = v as u64;
    assert((v as u32) == (v as u64) as u32) by (bit_vector);
    assert((wide as u32) == wide % 0x1_0000_0000u64) by (bit_vector);
    let low = (v as u32) as int;
    let q = v as int / 0x1_0000_0000;
    assert(v as int == low + 0x1_0000_0000 * q);
    be16_is_periodic(low, 0x1_0000 * q);
    assert(v as int / 0x1_0000 == low / 0x1_0000 + 0x1_0000 * q);
    be16_is_periodic(low / 0x1_0000, q);
}

/// Dropping the high bits of a number leaves its low two bytes as they were.
pub proof fn be16_of_truncated(v: usize)
    ensures
        be16((v as u16) as int) == be16(v as int),
{
    assert((v as u16) == v % 0x1_0000) by (bit_vector);
    be16_is_periodic((v as u16) as int, v as int / 0x1_0000);
}

/// The parts one after the other.
pub open spec fn concat(parts: Seq<Seq<u8>>) -> Seq<u8>
    decreases parts.len(),
{
    if parts.len() == 0 {
        Seq::empty()
    } else {
        concat(parts.drop_last()) + parts.last()
    }
}

/// The first part stands at the front.
pub proof fn concat_from_front(parts: Seq<Seq<u8>>)
    requires
        parts.len() > 0,
    ensures
        concat(parts) == parts[0] + concat(parts.skip(1)),
    decreases parts.len(),
{
    if parts.len() == 1 {
        assert(parts.drop_last() =~= Seq::empty());
        assert(parts.skip(1) =~= Seq::empty());
        assert(concat(parts) =~= parts[0] + concat(parts.skip(1)));
    } else {
        concat_from_front(parts.drop_last());
        assert(parts.drop_last().skip(1) =~= parts.skip(1).drop_last());
        assert(concat(parts) =~= parts[0] + concat(parts.skip(1)));
    }
}

/// Appends a 16-bit number.
pub fn push_be16(out: &mut Vec<u8>, v: u16)
    ensures
        final(out)@ == old(out)@ + be16(v as int),
{
    out.push((v / 0x100) as u8);
    out.push((v % 0x100) as u8);
    reveal(be16);
    assert(out@ =~= old(out)@ + be16(v as int));
}

/// Appends a 32-bit number.
pub fn push_be32(out: &mut Vec<u8>, v: u32)
    ensures
        final(out)@ == old(out)@ + be32(v as int),
{
    push_be16(out, (v / 0x1_0000) as u16);
    push_be16(out, (v % 0x1_0000) as u16);
    proof {
        be16_is_periodic((v % 0x1_0000) as int, (v / 0x1_0000) as int);
        assert(out@ =~= old(out)@ + (be16((v / 0x1_0000) as int) + be16((v % 0x1_0000) as int)));
    }
}

/// Parts that are all of one size can be found by counting.
pub proof fn concat_of_equal_parts(parts: Seq<Seq<u8>>, size: nat, i: int)
    requires
        forall|k: int| 0 <= k < parts.len() ==> (#[trigger] parts[k]).len() == size,
        0 <= i < parts.len(),
    ensures
        concat(parts).len() == size * parts.len(),
        concat(parts).skip(size * i) == parts[i] + concat(parts.skip(i + 1)),
    decreases parts.len(),
{
    let rest = parts.skip(1);
    concat_from_front(parts);
    assert(parts[0].len() == size);
    if parts.len() == 1 {
        assert(rest =~= Seq::empty());
        assert(concat(parts).skip(size * i) =~= parts[i] + concat(parts.skip(i + 1))) by {
            assert(size * i == 0) by (nonlinear_arith)
                requires
                    i == 0,
            ;
        }
        assert(size * parts.len() == size) by (nonlinear_arith)
            requires
                parts.len() == 1,
        ;
    } else {
        assert forall|k: int| 0 <= k < rest.len() implies (#[trigger] rest[k]).len() == size by {
            assert(rest[k] == parts[k + 1]);
        }
        let n = rest.len();
        assert(size * (n + 1) == size * n + size) by (nonlinear_arith);
        if i == 0 {
            concat_of_equal_parts(rest, size, 0);
            assert(size * i == 0) by (nonlinear_arith)
                requires
                    i == 0,
            ;
            assert(concat(parts).skip(0) =~= concat(parts));
        } else {
            concat_of_equal_parts(rest, size, i - 1);
            assert(size * i == size * (i - 1) + size) by (nonlinear_arith);
            assert(size * (i - 1) >= 0) by (nonlinear_arith)
                requires
                    i >= 1,
            ;
            assert(size * (i - 1) <= size * n) by (nonlinear_arith)
                requires
                    i - 1 <= n,
            ;
            assert(rest.skip(i) =~= parts.skip(i + 1));
            assert(concat(parts).skip(size * i) =~= concat(rest).skip(size * (i - 1)));
        }
    }
}

/// The parts up to one stand at the front, and that one behind them.
pub proof fn concat_splits(parts: Seq<Seq<u8>>, i: int)
    requires
        0 <= i < parts.len(),
    ensures
        concat(parts.take(i)).len() + parts[i].len() == concat(parts.take(i + 1)).len(),
        concat(parts.take(i + 1)).len() <= concat(parts).len(),
        concat(parts).subrange(
            concat(parts.take(i)).len() as int,
            concat(parts.take(i + 1)).len() as int,
        ) == parts[i],
    decreases parts.len(),
{
    assert(parts.take(i + 1).drop_last() =~= parts.take(i));
    if i == parts.len() - 1 {
        assert(parts.take(i + 1) =~= parts);
        assert(concat(parts).subrange(
            concat(parts.take(i)).len() as int,
            concat(parts).len() as int,
        ) =~= parts[i]);
    } else {
        let front = parts.drop_last();
        concat_splits(front, i);
        assert(front.take(i) =~= parts.take(i));
        assert(front.take(i + 1) =~= parts.take(i + 1));
        assert(concat(parts).subrange(
            concat(parts.take(i)).len() as int,
            concat(parts.take(i + 1)).len() as int,
        ) =~= concat(front).subrange(
            concat(parts.take(i)).len() as int,
            concat(parts.take(i + 1)).len() as int,
        ));
    }
}

/// Whether the two bytes of a 16-bit number stand at a place.
pub open spec fn stands16(s: Seq<u8>, n: int, v: int) -> bool {
    &&& 0 <= n
    &&& n + 2 <= s.len()
    &&& s[n] == be16(v)[0]
    &&& s[n + 1] == be16(v)[1]
}

/// Whether the four bytes of a 32-bit number stand at a place.
pub open spec fn stands32(s: Seq<u8>, n: int, v: int) -> bool {
    stands16(s, n, v / 0x1_0000) && stands16(s, n + 2, v)
}

/// A 16-bit number is read from the place where its two bytes stand.
pub proof fn number_at(s: Seq<u8>, n: int, v: int)
    requires
        stands16(s, n, v),
    ensures
        read16(s.skip(n)) == v % 0x1_0000,
{
    broadcast use be16_len;

    let tail = s.skip(n + 2);
    assert(s.skip(n) =~= be16(v) + tail);
    be16_round_trip(v, tail);
}

/// A 32-bit number is read from the place where its four bytes stand.
pub proof fn long_number_at(s: Seq<u8>, n: int, v: int)
    requires
        stands32(s, n, v),
    ensures
        read32(s.skip(n)) == v % 0x1_0000_0000,
{
    broadcast use be16_len;

    let tail = s.skip(n + 4);
    assert(s.skip(n) =~= be32(v) + tail);
    be32_round_trip(v, tail);
}

/// Putting parts together in two runs is putting them together in one.
pub proof fn concat_of_two_runs(a: Seq<Seq<u8>>, b: Seq<Seq<u8>>)
    ensures
        concat(a + b) == concat(a) + concat(b),
    decreases b.len(),
{
    if b.len() == 0 {
        assert(a + b =~= a);
        assert(concat(a) + concat(b) =~= concat(a));
    } else {
        concat_of_two_runs(a, b.drop_last());
        assert((a + b).drop_last() =~= a + b.drop_last());
        assert(concat(a + b) =~= concat(a) + concat(b));
    }
}

/// A single part put together is itself.
pub proof fn concat_of_one(part: Seq<u8>)
    ensures
        concat(seq![part]) == part,
{
    let none = seq![part].drop_last();
    assert(none =~= Seq::<Seq<u8>>::empty());
    assert(concat(none) =~= Seq::<u8>::empty());
    assert(concat(seq![part]) =~= part);
}

} // verus!
