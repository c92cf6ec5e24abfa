//! Single-precision numbers, held as their IEEE 754 bit patterns. Only their order matters here;
//! nothing computes with them.

use vstd::prelude::*;

verus! {

/// The pattern of positive infinity.
pub const INFINITY: u32 = 0x7f80_0000;

/// The pattern of negative infinity.
pub const NEG_INFINITY: u32 = 0xff80_0000;

/// Whether a pattern stands for no number.
pub open spec fn nan(bits: u32) -> bool {
    bits % 0x8000_0000 > INFINITY
}

/// A rank that orders patterns as the numbers that they stand for are ordered; negative zero
/// comes before zero.
pub open spec fn rank(bits: u32) -> int {
    if bits < 0x8000_0000 {
        bits as int
    } else {
        0x7fff_ffff - bits
    }
}

/// The lesser of two numbers; where one is no number, the other.
pub open spec fn lesser(a: u32, b: u32) -> u32 {
    if nan(b) {
        a
    } else if nan(a) || rank(b) < rank(a) {
        b
    } else {
        a
    }
}

/// The greater of two numbers; where one is no number, the other.
pub open spec fn greater(a: u32, b: u32) -> u32 {
    if nan(b) {
        a
    } else if nan(a) || rank(b) > rank(a) {
        b
    } else {
        a
    }
}

/// The least of some numbers, or infinity where there is none.
pub open spec fn least(values: Seq<u32>) -> u32
    decreases values.len(),
{
    if values.len() == 0 {
        INFINITY
    } else {
        lesser(least(values.drop_last()), values.last())
    }
}

/// The greatest of some numbers, or negative infinity where there is none.
pub open spec fn greatest(values: Seq<u32>) -> u32
    decreases values.len(),
{
    if values.len() == 0 {
        NEG_INFINITY
    } else {
        greater(greatest(values.drop_last()), values.last())
    }
}

fn is_nan(bits: u32) -> (b: bool)
    ensures
        b == nan(bits),
{
    bits % 0x8000_0000 > INFINITY
}

fn is_below(a: u32, b: u32) -> (less: bool)
    ensures
        less == (rank(a) < rank(b)),
{
    if a < 0x8000_0000 {
        b < 0x8000_0000 && a < b
    } else {
        b < 0x8000_0000 || a > b
    }
}

/// The lesser of two numbers; where one is no number, the other.
pub fn min_single(a: u32, b: u32) -> (m: u32)
    ensures
        m == lesser(a, b),
{
    if is_nan(b) {
        a
    } else if is_nan(a) || is_below(b, a) {
        b
    } else {
        a
    }
}

/// The greater of two numbers; where one is no number, the other.
pub fn max_single(a: u32, b: u32) -> (m: u32)
    ensures
        m == greater(a, b),
{
    if is_nan(b) {
        a
    } else if is_nan(a) || is_below(a, b) {
        b
    } else {
        a
    }
}

/// Every number lies between the least and the greatest, and both are among the numbers, or the
/// infinities that they start from.
pub proof fn extremes_bound(values: Seq<u32>)
    ensures
        !nan(least(values)),
        !nan(greatest(values)),
        least(values) == INFINITY || values.contains(least(values)),
        greatest(values) == NEG_INFINITY || values.contains(greatest(values)),
        forall|i: int|
            0 <= i < values.len() && !nan(#[trigger] values[i]) ==> rank(least(values)) <= rank(
                values[i],
            ) <= rank(greatest(values)),
    decreases values.len(),
{
    if values.len() > 0 {
        let rest = values.drop_last();
        extremes_bound(rest);
        if least(rest) != INFINITY {
            let k = choose|k: int| 0 <= k < rest.len() && rest[k] == least(rest);
            assert(values[k] == least(rest));
        }
        if greatest(rest) != NEG_INFINITY {
            let k = choose|k: int| 0 <= k < rest.len() && rest[k] == greatest(rest);
            assert(values[k] == greatest(rest));
        }
        assert(values[values.len() - 1] == values.last());
        assert forall|i: int| 0 <= i < values.len() && !nan(#[trigger] values[i]) implies rank(
            least(values),
        ) <= rank(values[i]) <= rank(greatest(values)) by {
            if i < rest.len() {
                assert(values[i] == rest[i]);
            }
        }
    }
}

/// The least of two runs of numbers is the lesser of their least, and likewise for the greatest.
pub proof fn extremes_of_concat(a: Seq<u32>, b: Seq<u32>)
    ensures
        least(a + b) == lesser(least(a), least(b)),
        greatest(a + b) == greater(greatest(a), greatest(b)),
    decreases b.len(),
{
    extremes_bound(a);
    if b.len() == 0 {
        assert(a + b =~= a);
    } else {
        extremes_bound(b.drop_last());
        extremes_of_concat(a, b.drop_last());
        assert((a + b).drop_last() =~= a + b.drop_last());
        assert((a + b).last() == b.last());
    }
}

/// Where any value is a number, the least and the greatest are among the values; where none is,
/// they are the infinities.
pub proof fn tight_extremes(values: Seq<u32>)
    ensures
        (exists|i: int| 0 <= i < values.len() && !nan(#[trigger] values[i])) ==> values.contains(
            least(values),
        ) && values.contains(greatest(values)),
        (forall|i: int| 0 <= i < values.len() ==> nan(#[trigger] values[i])) ==> least(values)
            == 0x7f80_0000 && greatest(values) == 0xff80_0000,
    decreases values.len(),
{
    if values.len() > 0 {
        let rest = values.drop_last();
        let last = values.len() - 1;
        tight_extremes(rest);
        extremes_bound(rest);
        assert(values[last] == values.last());
        if exists|i: int| 0 <= i < values.len() && !nan(#[trigger] values[i]) {
            let i = choose|i: int| 0 <= i < values.len() && !nan(#[trigger] values[i]);
            if i < last {
                assert(rest[i] == values[i]);
                let low = choose|k: int| 0 <= k < rest.len() && rest[k] == least(rest);
                let high = choose|k: int| 0 <= k < rest.len() && rest[k] == greatest(rest);
                assert(values[low] == least(rest));
                assert(values[high] == greatest(rest));
            } else if !(exists|k: int| 0 <= k < rest.len() && !nan(#[trigger] rest[k])) {
                assert(least(rest) == 0x7f80_0000 && greatest(rest) == 0xff80_0000);
                assert(rank(values.last()) <= rank(INFINITY));
                assert(rank(values.last()) >= rank(NEG_INFINITY));
            } else {
                let low = choose|k: int| 0 <= k < rest.len() && rest[k] == least(rest);
                let high = choose|k: int| 0 <= k < rest.len() && rest[k] == greatest(rest);
                assert(values[low] == least(rest));
                assert(values[high] == greatest(rest));
            }
        } else {
            assert forall|i: int| 0 <= i < rest.len() implies nan(#[trigger] rest[i]) by {
                assert(rest[i] == values[i]);
            }
        }
    }
}

/// Ranks order patterns as the numbers that they stand for: without the sign bit by the pattern
/// itself, with it the other way round, and any with it before all without.
pub proof fn ranks_order_numbers(a: u32, b: u32)
    ensures
        a < 0x8000_0000 && b < 0x8000_0000 ==> (rank(a) < rank(b) <==> a < b),
        a >= 0x8000_0000 && b >= 0x8000_0000 ==> (rank(a) < rank(b) <==> b < a),
        a >= 0x8000_0000 && b < 0x8000_0000 ==> rank(a) < rank(b),
        rank(a) == rank(b) ==> a == b,
{
}

/// The lesser of two numbers is one of them, and neither comes before it; the greater likewise. A
/// pattern that stands for no number leaves the other one.
pub proof fn lesser_and_greater_of_two(a: u32, b: u32)
    ensures
        nan(a) && !nan(b) ==> lesser(a, b) == b && greater(a, b) == b,
        nan(b) ==> lesser(a, b) == a && greater(a, b) == a,
        lesser(a, b) == a || lesser(a, b) == b,
        greater(a, b) == a || greater(a, b) == b,
        !nan(a) && !nan(b) ==> {
            &&& rank(lesser(a, b)) <= rank(a)
            &&& rank(lesser(a, b)) <= rank(b)
            &&& rank(greater(a, b)) >= rank(a)
            &&& rank(greater(a, b)) >= rank(b)
        },
{
}

} // verus!
