//! Least and greatest values.

use vstd::prelude::*;

verus! {

/// The least of some values, or 0 where there are none.
pub open spec fn lowest_of(values: Seq<int>) -> int
    decreases values.len(),
{
    if values.len() == 0 {
        0
    } else if values.len() == 1 || values.last() < lowest_of(values.drop_last()) {
        values.last()
    } else {
        lowest_of(values.drop_last())
    }
}

/// The greatest of some values, or 0 where there are none.
pub open spec fn highest_of(values: Seq<int>) -> int
    decreases values.len(),
{
    if values.len() == 0 {
        0
    } else if values.len() == 1 || values.last() > highest_of(values.drop_last()) {
        values.last()
    } else {
        highest_of(values.drop_last())
    }
}

/// The least of some values is one of them, and none is below it; the greatest likewise.
pub proof fn extremes_bound(values: Seq<int>)
    requires
        values.len() > 0,
    ensures
        values.contains(lowest_of(values)),
        values.contains(highest_of(values)),
        forall|i: int|
            0 <= i < values.len() ==> lowest_of(values) <= #[trigger] values[i] <= highest_of(
                values,
            ),
    decreases values.len(),
{
    assert(values[values.len() - 1] == values.last());
    if values.len() > 1 {
        let rest = values.drop_last();
        extremes_bound(rest);
        let low = choose|k: int| 0 <= k < rest.len() && rest[k] == lowest_of(rest);
        let high = choose|k: int| 0 <= k < rest.len() && rest[k] == highest_of(rest);
        assert(values[low] == rest[low]);
        assert(values[high] == rest[high]);
        assert forall|i: int| 0 <= i < values.len() implies lowest_of(values)
            <= #[trigger] values[i] <= highest_of(values) by {
            if i < rest.len() {
                assert(values[i] == rest[i]);
            }
        }
    }
}

/// Values as integers of any size.
pub open spec fn ints_i16(values: Seq<i16>) -> Seq<int> {
    values.map_values(|v: i16| v as int)
}

/// The least of some values, or 0 where there are none.
pub fn lowest_i16(values: &[i16]) -> (low: i16)
    ensures
        low == lowest_of(ints_i16(values@)),
{
    if values.len() == 0 {
        return 0;
    }
    let mut low: i16 = values[0];
    let mut i: usize = 1;
    let ghost all = ints_i16(values@);
    proof {
        assert(all.take(1).last() == values@[0]);
    }
    while i < values.len()
        invariant
            1 <= i <= values.len(),
            all == ints_i16(values@),
            low == lowest_of(all.take(i as int)),
        decreases values.len() - i,
    {
        assert(all.take(i + 1).drop_last() =~= all.take(i as int));
        assert(all.take(i + 1).last() == values@[i as int]);
        if values[i] < low {
            low = values[i];
        }
        i += 1;
    }
    assert(all.take(i as int) =~= all);
    low
}

/// The greatest of some values, or 0 where there are none.
pub fn highest_i16(values: &[i16]) -> (high: i16)
    ensures
        high == highest_of(ints_i16(values@)),
{
    if values.len() == 0 {
        return 0;
    }
    let mut high: i16 = values[0];
    let mut i: usize = 1;
    let ghost all = ints_i16(values@);
    proof {
        assert(all.take(1).last() == values@[0]);
    }
    while i < values.len()
        invariant
            1 <= i <= values.len(),
            all == ints_i16(values@),
            high == highest_of(all.take(i as int)),
        decreases values.len() - i,
    {
        assert(all.take(i + 1).drop_last() =~= all.take(i as int));
        assert(all.take(i + 1).last() == values@[i as int]);
        if values[i] > high {
            high = values[i];
        }
        i += 1;
    }
    assert(all.take(i as int) =~= all);
    high
}

/// Values as integers of any size.
pub open spec fn ints_u16(values: Seq<u16>) -> Seq<int> {
    values.map_values(|v: u16| v as int)
}

/// Values as integers of any size.
pub open spec fn ints_usize(values: Seq<usize>) -> Seq<int> {
    values.map_values(|v: usize| v as int)
}

/// The least of some values, or 0 where there are none.
pub fn lowest_u16(values: &[u16]) -> (low: u16)
    ensures
        low == lowest_of(ints_u16(values@)),
{
    if values.len() == 0 {
        return 0;
    }
    let mut low: u16 = values[0];
    let mut i: usize = 1;
    let ghost all = ints_u16(values@);
    proof {
        assert(all.take(1).last() == values@[0]);
    }
    while i < values.len()
        invariant
            1 <= i <= values.len(),
            all == ints_u16(values@),
            low == lowest_of(all.take(i as int)),
        decreases values.len() - i,
    {
        assert(all.take(i + 1).drop_last() =~= all.take(i as int));
        assert(all.take(i + 1).last() == values@[i as int]);
        if values[i] < low {
            low = values[i];
        }
        i += 1;
    }
    assert(all.take(i as int) =~= all);
    low
}

/// The greatest of some values, or 0 where there are none.
pub fn highest_u16(values: &[u16]) -> (high: u16)
    ensures
        high == highest_of(ints_u16(values@)),
{
    if values.len() == 0 {
        return 0;
    }
    let mut high: u16 = values[0];
    let mut i: usize = 1;
    let ghost all = ints_u16(values@);
    proof {
        assert(all.take(1).last() == values@[0]);
    }
    while i < values.len()
        invariant
            1 <= i <= values.len(),
            all == ints_u16(values@),
            high == highest_of(all.take(i as int)),
        decreases values.len() - i,
    {
        assert(all.take(i + 1).drop_last() =~= all.take(i as int));
        assert(all.take(i + 1).last() == values@[i as int]);
        if values[i] > high {
            high = values[i];
        }
        i += 1;
    }
    assert(all.take(i as int) =~= all);
    high
}

/// The greatest of some values, or 0 where there are none.
pub fn highest_usize(values: &[usize]) -> (high: usize)
    ensures
        high == highest_of(ints_usize(values@)),
{
    if values.len() == 0 {
        return 0;
    }
    let mut high: usize = values[0];
    let mut i: usize = 1;
    let ghost all = ints_usize(values@);
    proof {
        assert(all.take(1).last() == values@[0]);
    }
    while i < values.len()
        invariant
            1 <= i <= values.len(),
            all == ints_usize(values@),
            high == highest_of(all.take(i as int)),
        decreases values.len() - i,
    {
        assert(all.take(i + 1).drop_last() =~= all.take(i as int));
        assert(all.take(i + 1).last() == values@[i as int]);
        if values[i] > high {
            high = values[i];
        }
        i += 1;
    }
    assert(all.take(i as int) =~= all);
    high
}

} // verus!
