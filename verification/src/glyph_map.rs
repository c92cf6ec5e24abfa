//! Glyph entries by key, in the order of their keys.

use vstd::prelude::*;

use crate::config::GlyphEntry;
use crate::text::chars_of;

verus! {

/// How two keys are ordered.
#[derive(Clone, Copy, Debug, PartialEq, Eq, Structural)]
pub enum KeyOrder {
    Before,
    Same,
    After,
}

/// Whether a text comes before another: character by character, and a text before those that it
/// begins.
pub open spec fn before(a: Seq<char>, b: Seq<char>) -> bool
    decreases a.len(),
{
    if b.len() == 0 {
        false
    } else if a.len() == 0 {
        true
    } else if a[0] != b[0] {
        (a[0] as int) < (b[0] as int)
    } else {
        before(a.skip(1), b.skip(1))
    }
}

/// No text comes before itself, and none both before and after another.
pub proof fn before_is_strict(a: Seq<char>, b: Seq<char>)
    ensures
        !(before(a, b) && before(b, a)),
        a == b ==> !before(a, b),
    decreases a.len(),
{
    if a.len() > 0 && b.len() > 0 {
        before_is_strict(a.skip(1), b.skip(1));
    }
}

/// Of two different texts one comes before the other.
pub proof fn before_is_total(a: Seq<char>, b: Seq<char>)
    ensures
        a == b || before(a, b) || before(b, a),
    decreases a.len(),
{
    if a.len() == 0 || b.len() == 0 {
        if a.len() == b.len() {
            assert(a =~= b);
        }
    } else if a[0] == b[0] {
        before_is_total(a.skip(1), b.skip(1));
        if a.skip(1) == b.skip(1) {
            assert(a =~= seq![a[0]] + a.skip(1));
            assert(b =~= seq![b[0]] + b.skip(1));
        }
    }
}

/// A text before one that comes before a third comes before the third.
pub proof fn before_is_transitive(a: Seq<char>, b: Seq<char>, c: Seq<char>)
    requires
        before(a, b),
        before(b, c),
    ensures
        before(a, c),
    decreases a.len(),
{
    if a.len() > 0 && a[0] == b[0] && b[0] == c[0] {
        before_is_transitive(a.skip(1), b.skip(1), c.skip(1));
    }
}

fn code(c: char) -> (code: u32)
    ensures
        code == c as int,
{
    c as u32
}

/// How a key is ordered with respect to another.
pub fn compare_keys(a: &str, b: &str) -> (order: KeyOrder)
    ensures
        (match order {
            KeyOrder::Before => before(a@, b@),
            KeyOrder::Same => a@ == b@,
            KeyOrder::After => before(b@, a@),
        }),
{
    let left: Vec<char> = chars_of(a);
    let right: Vec<char> = chars_of(b);
    let mut i: usize = 0;
    assert(left@.skip(0) =~= left@);
    assert(right@.skip(0) =~= right@);
    while i < left.len() && i < right.len()
        invariant
            left@ == a@,
            right@ == b@,
            i <= left@.len(),
            i <= right@.len(),
            left@.take(i as int) == right@.take(i as int),
            before(left@, right@) == before(left@.skip(i as int), right@.skip(i as int)),
            before(right@, left@) == before(right@.skip(i as int), left@.skip(i as int)),
        decreases left.len() - i,
    {
        assert(left@.skip(i as int).skip(1) =~= left@.skip(i + 1));
        assert(right@.skip(i as int).skip(1) =~= right@.skip(i + 1));
        let x: u32 = code(left[i]);
        let y: u32 = code(right[i]);
        if x < y {
            return KeyOrder::Before;
        } else if y < x {
            return KeyOrder::After;
        }
        assert(left@.take(i + 1) =~= left@.take(i as int).push(left@[i as int]));
        assert(right@.take(i + 1) =~= right@.take(i as int).push(right@[i as int]));
        i += 1;
    }
    if i < right.len() {
        KeyOrder::Before
    } else if i < left.len() {
        KeyOrder::After
    } else {
        assert(left@ =~= left@.take(i as int));
        assert(right@ =~= right@.take(i as int));
        KeyOrder::Same
    }
}

/// Glyph entries by key. Each key occurs once, and the entries stand in the order of their keys.
#[derive(Debug)]
pub struct GlyphMap {
    pub entries: Vec<(String, GlyphEntry)>,
}

impl View for GlyphMap {
    type V = Map<Seq<char>, GlyphEntry>;

    open spec fn view(&self) -> Map<Seq<char>, GlyphEntry> {
        entry_map(self.entries@)
    }
}

/// Entries as a map.
pub open spec fn entry_map(entries: Seq<(String, GlyphEntry)>) -> Map<Seq<char>, GlyphEntry>
    decreases entries.len(),
{
    if entries.len() == 0 {
        Map::empty()
    } else {
        entry_map(entries.drop_last()).insert(entries.last().0@, entries.last().1)
    }
}

/// Whether entries stand in the order of their keys, each key once.
pub open spec fn ordered(entries: Seq<(String, GlyphEntry)>) -> bool {
    forall|i: int, j: int|
        0 <= i < j < entries.len() ==> before(
            (#[trigger] entries[i]).0@,
            (#[trigger] entries[j]).0@,
        )
}

/// Entries in order, as a map, give for each key its entry, and have no other keys.
pub proof fn entry_map_lookup(entries: Seq<(String, GlyphEntry)>)
    requires
        ordered(entries),
    ensures
        forall|i: int|
            0 <= i < entries.len() ==> entry_map(entries).contains_key((#[trigger] entries[i]).0@)
                && entry_map(entries)[entries[i].0@] == entries[i].1,
        forall|key: Seq<char>| #[trigger]
            entry_map(entries).contains_key(key) ==> exists|i: int|
                0 <= i < entries.len() && (#[trigger] entries[i]).0@ == key,
    decreases entries.len(),
{
    if entries.len() > 0 {
        let rest = entries.drop_last();
        entry_map_lookup(rest);
        assert forall|i: int| 0 <= i < entries.len() implies entry_map(entries).contains_key(
            (#[trigger] entries[i]).0@,
        ) && entry_map(entries)[entries[i].0@] == entries[i].1 by {
            if i < rest.len() {
                assert(entries[i] == rest[i]);
                assert(before(entries[i].0@, entries[entries.len() - 1].0@));
                before_is_strict(entries[i].0@, entries.last().0@);
            }
        }
        assert forall|key: Seq<char>| #[trigger] entry_map(entries).contains_key(key) implies exists|
            i: int,
        |
            0 <= i < entries.len() && (#[trigger] entries[i]).0@ == key by {
            if key == entries.last().0@ {
                assert(entries[entries.len() - 1].0@ == key);
            } else {
                assert(entry_map(rest).contains_key(key));
                let i = choose|i: int| 0 <= i < rest.len() && (#[trigger] rest[i]).0@ == key;
                assert(entries[i].0@ == key);
            }
        }
    }
}

proof fn same_entries_same_map(a: Seq<(String, GlyphEntry)>, b: Map<Seq<char>, GlyphEntry>)
    requires
        ordered(a),
        forall|i: int|
            0 <= i < a.len() ==> b.contains_key((#[trigger] a[i]).0@) && b[a[i].0@] == a[i].1,
        forall|key: Seq<char>| #[trigger]
            b.contains_key(key) ==> exists|i: int|
                0 <= i < a.len() && (#[trigger] a[i]).0@ == key,
    ensures
        entry_map(a) == b,
{
    entry_map_lookup(a);
    let m = entry_map(a);
    assert forall|key: Seq<char>| m.contains_key(key) == b.contains_key(key) && (m.contains_key(key)
        ==> m[key] == b[key]) by {
        if m.contains_key(key) {
            let i = choose|i: int| 0 <= i < a.len() && (#[trigger] a[i]).0@ == key;
            assert(b.contains_key(a[i].0@) && b[a[i].0@] == a[i].1);
        }
        if b.contains_key(key) {
            let i = choose|i: int| 0 <= i < a.len() && (#[trigger] a[i]).0@ == key;
            assert(m.contains_key(a[i].0@));
        }
    }
    assert(m =~= b);
}

impl GlyphMap {
    /// Whether the entries stand in the order of their keys, each key once.
    pub open spec fn well_formed(self) -> bool {
        ordered(self.entries@)
    }

    /// A map without entries.
    pub fn new() -> (map: GlyphMap)
        ensures
            map.well_formed(),
            map@ == Map::<Seq<char>, GlyphEntry>::empty(),
    {
        GlyphMap { entries: Vec::new() }
    }

    /// How many entries there are.
    pub fn len(&self) -> (len: usize)
        ensures
            len == self.entries@.len(),
    {
        self.entries.len()
    }

    /// Where a key stands, or where it would have to: the number of entries whose keys come
    /// before it, and whether the next one has that key.
    fn position(&self, key: &str) -> (found: (usize, bool))
        requires
            self.well_formed(),
        ensures
            found.0 <= self.entries@.len(),
            forall|i: int| 0 <= i < found.0 ==> before((#[trigger] self.entries@[i]).0@, key@),
            found.1 ==> found.0 < self.entries@.len() && self.entries@[found.0 as int].0@ == key@,
            !found.1 ==> forall|i: int|
                found.0 <= i < self.entries@.len() ==> before(
                    key@,
                    (#[trigger] self.entries@[i]).0@,
                ),
    {
        let mut i: usize = 0;
        while i < self.entries.len()
            invariant
                i <= self.entries@.len(),
                self.well_formed(),
                forall|k: int| 0 <= k < i ==> before((#[trigger] self.entries@[k]).0@, key@),
            decreases self.entries.len() - i,
        {
            match compare_keys(self.entries[i].0.as_str(), key) {
                KeyOrder::Before => {},
                KeyOrder::Same => {
                    return (i, true);
                },
                KeyOrder::After => {
                    proof {
                        assert forall|k: int| i <= k < self.entries@.len() implies before(
                            key@,
                            (#[trigger] self.entries@[k]).0@,
                        ) by {
                            if k > i {
                                assert(before(self.entries@[i as int].0@, self.entries@[k].0@));
                                before_is_transitive(
                                    key@,
                                    self.entries@[i as int].0@,
                                    self.entries@[k].0@,
                                );
                            }
                        }
                    }
                    return (i, false);
                },
            }
            i += 1;
        }
        (i, false)
    }

    /// Adds an entry. One with the same key is replaced.
    pub fn insert(&mut self, key: String, entry: GlyphEntry)
        requires
            old(self).well_formed(),
        ensures
            final(self).well_formed(),
            final(self)@ == old(self)@.insert(key@, entry),
    {
        let (i, found) = self.position(key.as_str());
        let ghost before_insert = self.entries@;
        let ghost new_key = key@;
        proof {
            entry_map_lookup(before_insert);
        }
        if found {
            self.entries.set(i, (key, entry));
        } else {
            self.entries.insert(i, (key, entry));
        }
        proof {
            let a = self.entries@;
            let b = entry_map(before_insert).insert(new_key, entry);
            let shift: int = if found {
                0
            } else {
                1
            };
            assert(a[i as int].0@ == new_key && a[i as int].1 == entry);
            assert forall|k: int, l: int| 0 <= k < l < a.len() implies before(
                (#[trigger] a[k]).0@,
                (#[trigger] a[l]).0@,
            ) by {
                if k < i {
                    assert(a[k] == before_insert[k]);
                } else if k > i {
                    assert(a[k] == before_insert[k - shift]);
                }
                if l < i {
                    assert(a[l] == before_insert[l]);
                } else if l > i {
                    assert(a[l] == before_insert[l - shift]);
                }
                if found {
                    assert(before_insert[i as int].0@ == new_key);
                }
            }
            assert forall|k: int| 0 <= k < a.len() implies b.contains_key((#[trigger] a[k]).0@)
                && b[a[k].0@] == a[k].1 by {
                if k < i {
                    assert(a[k] == before_insert[k]);
                    before_is_strict(a[k].0@, new_key);
                } else if k > i {
                    assert(a[k] == before_insert[k - shift]);
                    assert(before(a[i as int].0@, a[k].0@));
                    before_is_strict(new_key, a[k].0@);
                }
            }
            assert forall|other: Seq<char>| #[trigger] b.contains_key(other) implies exists|k: int|
                0 <= k < a.len() && (#[trigger] a[k]).0@ == other by {
                if other == new_key {
                    assert(a[i as int].0@ == other);
                } else {
                    assert(entry_map(before_insert).contains_key(other));
                    let k = choose|k: int|
                        0 <= k < before_insert.len() && (#[trigger] before_insert[k]).0@ == other;
                    if k < i {
                        assert(a[k].0@ == other);
                    } else {
                        assert(a[k + shift].0@ == other);
                    }
                }
            }
            same_entries_same_map(a, b);
        }
    }
}

/// Where two texts differ for the first time, the one with the lesser character comes first.
pub proof fn first_difference_decides(a: Seq<char>, b: Seq<char>, i: int)
    requires
        0 <= i < a.len(),
        i < b.len(),
        a.take(i) == b.take(i),
        a[i] != b[i],
    ensures
        before(a, b) <==> (a[i] as int) < (b[i] as int),
    decreases i,
{
    if i > 0 {
        assert(a[0] == a.take(i)[0] && b[0] == b.take(i)[0]);
        assert(a.skip(1).take(i - 1) =~= a.take(i).skip(1));
        assert(b.skip(1).take(i - 1) =~= b.take(i).skip(1));
        first_difference_decides(a.skip(1), b.skip(1), i - 1);
    }
}

/// A text comes before every longer one that it begins.
pub proof fn shorter_text_comes_first(a: Seq<char>, more: Seq<char>)
    ensures
        before(a, a + more) <==> more.len() > 0,
        !before(a + more, a),
    decreases a.len(),
{
    if a.len() == 0 {
        assert(a + more =~= more);
    } else {
        assert((a + more).skip(1) =~= a.skip(1) + more);
        shorter_text_comes_first(a.skip(1), more);
    }
}

/// Entries in order make a map of as many entries.
pub proof fn entries_are_counted(entries: Seq<(String, GlyphEntry)>)
    requires
        ordered(entries),
    ensures
        entry_map(entries).dom().finite(),
        entry_map(entries).len() == entries.len(),
    decreases entries.len(),
{
    broadcast use vstd::map_lib::group_map_properties;

    if entries.len() > 0 {
        let rest = entries.drop_last();
        entries_are_counted(rest);
        entry_map_lookup(rest);
        let key = entries.last().0@;
        if entry_map(rest).contains_key(key) {
            let i = choose|i: int| 0 <= i < rest.len() && (#[trigger] rest[i]).0@ == key;
            assert(before(entries[i].0@, entries[entries.len() - 1].0@));
            before_is_strict(key, key);
        }
        assert(entry_map(entries).dom() =~= entry_map(rest).dom().insert(key));
    } else {
        assert(entry_map(entries).dom() =~= Set::empty());
    }
}

} // verus!
