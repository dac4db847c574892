//! The ordinal order of strings, sort keys made of it, and sorting by key.

use vstd::multiset::Multiset;
use vstd::prelude::*;
use vstd::seq_lib::{
    to_multiset_build, to_multiset_contains, to_multiset_insert, to_multiset_remove,
};

verus! {

/// The ordinal order of strings: character by character, by code point, a
/// proper prefix before what it is a prefix of.
pub open spec fn ordinal_le(a: Seq<char>, b: Seq<char>) -> bool
    decreases a.len(),
{
    if a.len() == 0 {
        true
    } else if b.len() == 0 {
        false
    } else if a.first() == b.first() {
        ordinal_le(a.drop_first(), b.drop_first())
    } else {
        a.first() < b.first()
    }
}

/// Every string is at or before itself.
pub proof fn lemma_ordinal_le_reflexive(a: Seq<char>)
    ensures
        ordinal_le(a, a),
    decreases a.len(),
{
    if a.len() > 0 {
        lemma_ordinal_le_reflexive(a.drop_first());
    }
}

/// Of two strings one is at or before the other.
pub proof fn lemma_ordinal_le_total(a: Seq<char>, b: Seq<char>)
    ensures
        ordinal_le(a, b) || ordinal_le(b, a),
    decreases a.len(),
{
    if a.len() > 0 && b.len() > 0 && a.first() == b.first() {
        lemma_ordinal_le_total(a.drop_first(), b.drop_first());
    }
}

/// Two strings that are each at or before the other are the same string.
pub proof fn lemma_ordinal_le_antisymmetric(a: Seq<char>, b: Seq<char>)
    requires
        ordinal_le(a, b),
        ordinal_le(b, a),
    ensures
        a == b,
    decreases a.len(),
{
    if a.len() > 0 && b.len() > 0 {
        lemma_ordinal_le_antisymmetric(a.drop_first(), b.drop_first());
        assert(a == seq![a.first()] + a.drop_first());
        assert(b == seq![b.first()] + b.drop_first());
    } else {
        assert(a == b);
    }
}

/// What is at or before a string is at or before all that the string is at
/// or before.
pub proof fn lemma_ordinal_le_transitive(a: Seq<char>, b: Seq<char>, c: Seq<char>)
    requires
        ordinal_le(a, b),
        ordinal_le(b, c),
    ensures
        ordinal_le(a, c),
    decreases a.len(),
{
    if a.len() > 0 && b.len() > 0 && c.len() > 0 && a.first() == b.first() && b.first()
        == c.first() {
        lemma_ordinal_le_transitive(a.drop_first(), b.drop_first(), c.drop_first());
    }
}

/// What items are sorted by: a group, then a string, then a number, then
/// two more strings.
pub struct SortKey {
    pub group: nat,
    pub primary: Seq<char>,
    pub rank: nat,
    pub secondary: Seq<char>,
    pub tertiary: Seq<char>,
}

/// The order of two strings one after the other: by the first in ordinal
/// order, and by the second where the first are the same.
pub open spec fn pair_le(a: Seq<char>, b: Seq<char>, c: Seq<char>, d: Seq<char>) -> bool {
    if a != c {
        ordinal_le(a, c)
    } else {
        ordinal_le(b, d)
    }
}

/// The order of sort keys: by the group, then by the first string in
/// ordinal order, then by the number, then by the second and the third
/// string in ordinal order.
pub open spec fn key_le(x: SortKey, y: SortKey) -> bool {
    if x.group != y.group {
        x.group < y.group
    } else if x.primary != y.primary {
        ordinal_le(x.primary, y.primary)
    } else if x.rank != y.rank {
        x.rank < y.rank
    } else {
        pair_le(x.secondary, x.tertiary, y.secondary, y.tertiary)
    }
}

/// Every key is at or before itself.
pub proof fn lemma_key_le_reflexive(x: SortKey)
    ensures
        key_le(x, x),
{
    lemma_ordinal_le_reflexive(x.tertiary);
}

/// Of two keys one is at or before the other.
pub proof fn lemma_key_le_total(x: SortKey, y: SortKey)
    ensures
        key_le(x, y) || key_le(y, x),
{
    lemma_ordinal_le_total(x.primary, y.primary);
    lemma_ordinal_le_total(x.secondary, y.secondary);
    lemma_ordinal_le_total(x.tertiary, y.tertiary);
}

/// Two keys that are each at or before the other are the same key.
pub proof fn lemma_key_le_antisymmetric(x: SortKey, y: SortKey)
    requires
        key_le(x, y),
        key_le(y, x),
    ensures
        x == y,
{
    if x.group == y.group {
        if x.primary != y.primary {
            lemma_ordinal_le_antisymmetric(x.primary, y.primary);
        } else if x.rank == y.rank {
            if x.secondary != y.secondary {
                lemma_ordinal_le_antisymmetric(x.secondary, y.secondary);
            } else {
                lemma_ordinal_le_antisymmetric(x.tertiary, y.tertiary);
            }
        }
    }
}

/// What is at or before a key is at or before all that the key is at or
/// before.
pub proof fn lemma_key_le_transitive(x: SortKey, y: SortKey, z: SortKey)
    requires
        key_le(x, y),
        key_le(y, z),
    ensures
        key_le(x, z),
{
    if x.group == y.group && y.group == z.group {
        if x.primary != y.primary {
            if y.primary != z.primary {
                lemma_ordinal_le_transitive(x.primary, y.primary, z.primary);
                if x.primary == z.primary {
                    lemma_ordinal_le_antisymmetric(x.primary, y.primary);
                }
            }
        } else if y.primary == z.primary && x.rank == y.rank && y.rank == z.rank {
            if x.secondary != y.secondary {
                if y.secondary != z.secondary {
                    lemma_ordinal_le_transitive(x.secondary, y.secondary, z.secondary);
                    if x.secondary == z.secondary {
                        lemma_ordinal_le_antisymmetric(x.secondary, y.secondary);
                    }
                }
            } else if y.secondary == z.secondary {
                lemma_ordinal_le_transitive(x.tertiary, y.tertiary, z.tertiary);
            }
        }
    }
}

/// Whether the keys stand in order, each at or before all that follow it.
pub open spec fn keys_ascend(keys: Seq<SortKey>) -> bool {
    forall|i: int, j: int| 0 <= i < j < keys.len() ==> key_le(keys[i], keys[j])
}

/// Two sequences of the same items, in whatever order, are still sequences
/// of the same items when each item is replaced by what `f` makes of it.
pub proof fn lemma_map_keeps_multiset<A, B>(x: Seq<A>, y: Seq<A>, f: spec_fn(A) -> B)
    requires
        x.to_multiset() == y.to_multiset(),
    ensures
        x.map_values(f).to_multiset() == y.map_values(f).to_multiset(),
    decreases x.len(),
{
    x.to_multiset_ensures();
    y.to_multiset_ensures();
    if x.len() == 0 {
        assert(x.map_values(f) == y.map_values(f));
    } else {
        let last = x.last();
        let front = x.drop_last();
        assert(x == front.push(last));
        to_multiset_build(front, last);
        assert(x.contains(last));
        to_multiset_contains(x, last);
        to_multiset_contains(y, last);
        let at = choose|at: int| 0 <= at < y.len() && y[at] == last;
        let others = y.remove(at);
        to_multiset_remove(y, at);
        assert(front.to_multiset() =~= x.to_multiset().remove(last));
        lemma_map_keeps_multiset(front, others, f);
        assert(x.map_values(f) == front.map_values(f).push(f(last)));
        assert(y.map_values(f) == others.map_values(f).insert(at, f(last)));
        to_multiset_build(front.map_values(f), f(last));
        to_multiset_insert(others.map_values(f), at, f(last));
    }
}

/// How two strings stand to each other in ordinal order.
#[derive(Clone, Copy, Debug)]
pub enum Standing {
    Before,
    Same,
    After,
}

/// An item with the key it is sorted by.
pub struct Keyed<T> {
    pub group: u8,
    pub primary: Vec<char>,
    pub rank: u32,
    pub secondary: Vec<char>,
    pub tertiary: Vec<char>,
    pub item: T,
}

impl<T> Keyed<T> {
    /// The key of the item.
    pub open spec fn key(&self) -> SortKey {
        SortKey {
            group: self.group as nat,
            primary: self.primary@,
            rank: self.rank as nat,
            secondary: self.secondary@,
            tertiary: self.tertiary@,
        }
    }
}

/// The keys of `rows`, row by row.
pub open spec fn keys_of<T>(rows: Seq<Keyed<T>>) -> Seq<SortKey> {
    Seq::new(rows.len(), |i: int| rows[i].key())
}

/// Where `a` stands to `b` in ordinal order.
pub fn ordinal_standing(a: &Vec<char>, b: &Vec<char>) -> (standing: Standing)
    ensures
        match standing {
            Standing::Before => ordinal_le(a@, b@) && a@ != b@,
            Standing::Same => a@ == b@,
            Standing::After => !ordinal_le(a@, b@),
        },
{
    let mut i: usize = 0;
    proof {
        assert(a@.skip(0) == a@);
        assert(b@.skip(0) == b@);
    }
    while i < a.len() && i < b.len() && a[i] == b[i]
        invariant
            i <= a.len(),
            i <= b.len(),
            a@.take(i as int) == b@.take(i as int),
            ordinal_le(a@, b@) == ordinal_le(a@.skip(i as int), b@.skip(i as int)),
        decreases a.len() - i,
    {
        proof {
            assert(a@.skip(i as int).drop_first() == a@.skip(i + 1));
            assert(b@.skip(i as int).drop_first() == b@.skip(i + 1));
            assert(a@.take(i + 1) == a@.take(i as int).push(a@[i as int]));
            assert(b@.take(i + 1) == b@.take(i as int).push(b@[i as int]));
        }
        i += 1;
    }
    proof {
        assert(a@.take(a.len() as int) == a@);
        assert(b@.take(b.len() as int) == b@);
        if i < a.len() && i < b.len() {
            assert(a@.take(i + 1).last() != b@.take(i + 1).last());
        }
    }
    if i == a.len() && i == b.len() {
        Standing::Same
    } else if i == a.len() {
        Standing::Before
    } else if i == b.len() {
        Standing::After
    } else if a[i] < b[i] {
        Standing::Before
    } else {
        Standing::After
    }
}

/// Whether the key of `x` is at or before the key of `y`.
pub fn key_precedes<T>(x: &Keyed<T>, y: &Keyed<T>) -> (precedes: bool)
    ensures
        precedes == key_le(x.key(), y.key()),
{
    if x.group != y.group {
        return x.group < y.group;
    }
    match ordinal_standing(&x.primary, &y.primary) {
        Standing::Before => {
            return true;
        },
        Standing::After => {
            proof {
                lemma_ordinal_le_reflexive(x.primary@);
            }
            return false;
        },
        Standing::Same => {},
    }
    if x.rank != y.rank {
        return x.rank < y.rank;
    }
    match ordinal_standing(&x.secondary, &y.secondary) {
        Standing::Before => {
            return true;
        },
        Standing::After => {
            proof {
                lemma_ordinal_le_reflexive(x.secondary@);
            }
            return false;
        },
        Standing::Same => {},
    }
    match ordinal_standing(&x.tertiary, &y.tertiary) {
        Standing::After => false,
        _ => {
            proof {
                lemma_ordinal_le_reflexive(x.tertiary@);
            }
            true
        },
    }
}

/// Sorts `rows` by their keys: the rows that were given, in the order of
/// their keys.
pub fn sort_keyed<T>(rows: Vec<Keyed<T>>) -> (sorted: Vec<Keyed<T>>)
    ensures
        sorted@.to_multiset() == rows@.to_multiset(),
        keys_ascend(keys_of(sorted@)),
{
    let mut sorted: Vec<Keyed<T>> = Vec::new();
    let mut rest: Vec<Keyed<T>> = rows;
    let ghost all: Multiset<Keyed<T>> = rows@.to_multiset();
    proof {
        assert(sorted@.to_multiset() =~= Multiset::empty()) by {
            sorted@.to_multiset_ensures();
        }
        assert(sorted@.to_multiset().add(rest@.to_multiset()) == all);
    }
    while rest.len() > 0
        invariant
            sorted@.to_multiset().add(rest@.to_multiset()) == all,
            keys_ascend(keys_of(sorted@)),
        decreases rest.len(),
    {
        let ghost rest_before = rest@;
        let ghost sorted_before = sorted@;
        let row = rest.pop().unwrap();
        let mut at: usize = sorted.len();
        while at > 0 && !key_precedes(&sorted[at - 1], &row)
            invariant
                at <= sorted.len(),
                sorted@ == sorted_before,
                forall|k: int|
                    at <= k < sorted.len() ==> key_le(row.key(), #[trigger] sorted@[k].key()),
            decreases at,
        {
            proof {
                lemma_key_le_total(sorted@[at - 1].key(), row.key());
            }
            at -= 1;
        }
        sorted.insert(at, row);
        proof {
            to_multiset_insert(sorted_before, at as int, row);
            assert(rest_before == rest@.push(row));
            to_multiset_build(rest@, row);
            assert(sorted@.to_multiset().add(rest@.to_multiset()) == all);
            let before = keys_of(sorted_before);
            let after = keys_of(sorted@);
            assert forall|i: int, j: int| 0 <= i < j < after.len() implies key_le(
                after[i],
                after[j],
            ) by {
                if j < at {
                    assert(key_le(before[i], before[j]));
                } else if j == at {
                    assert(key_le(before[at - 1], row.key()));
                    if i < at - 1 {
                        assert(key_le(before[i], before[at - 1]));
                        lemma_key_le_transitive(before[i], before[at - 1], row.key());
                    }
                } else if i < at {
                    assert(key_le(before[i], before[j - 1]));
                } else if i == at {
                    assert(key_le(row.key(), sorted_before[j - 1].key()));
                } else {
                    assert(key_le(before[i - 1], before[j - 1]));
                }
            }
        }
    }
    proof {
        assert(rest@.to_multiset() =~= Multiset::empty()) by {
            rest@.to_multiset_ensures();
        }
        assert(sorted@.to_multiset() =~= all);
    }
    sorted
}

/// The items of `rows`, row by row.
pub open spec fn items_of<T>(rows: Seq<Keyed<T>>) -> Seq<T> {
    rows.map_values(|row: Keyed<T>| row.item)
}

/// Takes the items out of their rows.
pub fn into_items<T>(rows: Vec<Keyed<T>>) -> (items: Vec<T>)
    ensures
        items@ == items_of(rows@),
{
    let mut items: Vec<T> = Vec::new();
    for row in it: rows
        invariant
            it.seq() == rows@,
            items@ == items_of(it.history()),
    {
        let ghost before = it.history();
        items.push(row.item);
        assert(items_of(before.push(row)) == items_of(before).push(row.item));
    }
    items
}

/// What sorting rows says of what the rows stand for. Let every row given
/// carry the key of what it stands for. Then the rows in the order of their
/// keys stand for the same things, each as often, and those things stand in
/// the order of their keys.
pub proof fn lemma_sorted_rows<T, V>(
    unsorted: Seq<Keyed<T>>,
    ordered: Seq<Keyed<T>>,
    stands_for: spec_fn(Keyed<T>) -> V,
    key_of: spec_fn(V) -> SortKey,
)
    requires
        ordered.to_multiset() == unsorted.to_multiset(),
        keys_ascend(keys_of(ordered)),
        forall|k: int|
            0 <= k < unsorted.len() ==> (#[trigger] unsorted[k]).key() == key_of(
                stands_for(unsorted[k]),
            ),
    ensures
        ordered.map_values(stands_for).to_multiset() == unsorted.map_values(
            stands_for,
        ).to_multiset(),
        ordered.len() == unsorted.len(),
        forall|i: int, j: int|
            0 <= i < j < ordered.len() ==> key_le(
                key_of(#[trigger] ordered.map_values(stands_for)[i]),
                key_of(#[trigger] ordered.map_values(stands_for)[j]),
            ),
{
    lemma_map_keeps_multiset(ordered, unsorted, stands_for);
    ordered.to_multiset_ensures();
    unsorted.to_multiset_ensures();
    let keys = keys_of(ordered);
    assert forall|i: int| 0 <= i < ordered.len() implies keys[i] == key_of(
        ordered.map_values(stands_for)[i],
    ) by {
        assert(ordered.contains(ordered[i]));
        to_multiset_contains(ordered, ordered[i]);
        to_multiset_contains(unsorted, ordered[i]);
        let at = choose|k: int| 0 <= k < unsorted.len() && unsorted[k] == ordered[i];
        assert(unsorted[at].key() == key_of(stands_for(unsorted[at])));
    }
    assert forall|i: int, j: int| 0 <= i < j < ordered.len() implies key_le(
        key_of(#[trigger] ordered.map_values(stands_for)[i]),
        key_of(#[trigger] ordered.map_values(stands_for)[j]),
    ) by {
        assert(key_le(keys[i], keys[j]));
    }
}

} // verus!
