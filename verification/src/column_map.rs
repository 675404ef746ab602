//! Maps from columns to columns.

use vstd::prelude::*;

use crate::column_set::{lemma_take_to_set, ColumnSet};

verus! {

/// The column that a list of entries gives for `key`.
pub open spec fn lookup(entries: Seq<(usize, usize)>, key: usize) -> Option<usize>
    decreases entries.len(),
{
    if entries.len() == 0 {
        None
    } else if entries.last().0 == key {
        Some(entries.last().1)
    } else {
        lookup(entries.drop_last(), key)
    }
}

/// The entries once `key` gives `value`: an old entry keeps its place, a new one comes last.
pub open spec fn bind(entries: Seq<(usize, usize)>, key: usize, value: usize) -> Seq<
    (usize, usize),
> {
    if has_key(entries, key) {
        rebind(entries, key, value)
    } else {
        entries.push((key, value))
    }
}

/// The entries with `value` in every entry for `key`.
pub open spec fn rebind(entries: Seq<(usize, usize)>, key: usize, value: usize) -> Seq<
    (usize, usize),
> {
    entries.map_values(
        |e: (usize, usize)|
            if e.0 == key {
                (key, value)
            } else {
                e
            },
    )
}

/// The columns that the entries give, in order.
pub open spec fn values_of(entries: Seq<(usize, usize)>) -> Seq<usize> {
    entries.map_values(|e: (usize, usize)| e.1)
}

/// Whether an entry for `key` is among the entries.
pub open spec fn has_key(entries: Seq<(usize, usize)>, key: usize) -> bool {
    exists|i: int| 0 <= i < entries.len() && (#[trigger] entries[i]).0 == key
}

/// Whether no two entries have one key.
pub open spec fn distinct_keys(entries: Seq<(usize, usize)>) -> bool {
    forall|i: int, j: int|
        0 <= i < j < entries.len() ==> (#[trigger] entries[i]).0 != (#[trigger] entries[j]).0
}

/// A map from columns to columns. It is walked in the order in which its keys came in.
#[derive(Debug)]
pub struct ColumnMap {
    entries: Vec<(usize, usize)>,
}

impl View for ColumnMap {
    type V = Seq<(usize, usize)>;

    closed spec fn view(&self) -> Seq<(usize, usize)> {
        self.entries@
    }
}

impl ColumnMap {
    /// No two entries have one key.
    #[verifier::type_invariant]
    pub open spec fn well_formed(&self) -> bool {
        distinct_keys(self@)
    }

    /// The map without entries.
    pub fn new() -> (r: Self)
        ensures
            r@ == Seq::<(usize, usize)>::empty(),
            r.well_formed(),
    {
        ColumnMap { entries: Vec::new() }
    }

    /// Takes every entry out.
    pub fn clear(&mut self)
        ensures
            final(self)@ == Seq::<(usize, usize)>::empty(),
            final(self).well_formed(),
    {
        self.entries = Vec::new();
    }

    /// The column that the map gives for `key`.
    pub fn get(&self, key: usize) -> (r: Option<usize>)
        ensures
            r == lookup(self@, key),
    {
        let mut i: usize = self.entries.len();
        assert(self@.take(i as int) =~= self@);
        while i > 0
            invariant
                i <= self@.len(),
                lookup(self@.take(i as int), key) == lookup(self@, key),
            decreases i,
        {
            let ghost prefix = self@.take(i as int);
            assert(prefix.drop_last() =~= self@.take(i - 1));
            assert(prefix.last() == self@[i - 1]);
            i -= 1;
            let entry = self.entries[i];
            if entry.0 == key {
                return Some(entry.1);
            }
        }
        None
    }

    /// Makes the map give `value` for `key`.
    pub fn insert(&mut self, key: usize, value: usize)
        ensures
            final(self)@ == bind(old(self)@, key, value),
            final(self).well_formed(),
    {
        proof {
            use_type_invariant(&*self);
        }
        let ghost before = self@;
        let mut entries: Vec<(usize, usize)> = Vec::new();
        std::mem::swap(&mut entries, &mut self.entries);
        let mut found: bool = false;
        let mut i: usize = 0;
        while i < entries.len()
            invariant
                i <= entries@.len(),
                entries@.len() == before.len(),
                found == exists|k: int| 0 <= k < i && (#[trigger] before[k]).0 == key,
                forall|k: int|
                    0 <= k < i ==> #[trigger] entries@[k] == rebind(before, key, value)[k],
                forall|k: int| i <= k < before.len() ==> #[trigger] entries@[k] == before[k],
            decreases entries.len() - i,
        {
            let ghost at = i as int;
            assert(entries@[at] == before[at]);
            if entries[i].0 == key {
                entries.set(i, (key, value));
                found = true;
                assert(before[at].0 == key);
            }
            i += 1;
        }
        if found {
            assert(entries@ =~= rebind(before, key, value));
        } else {
            assert(entries@ =~= before);
            entries.push((key, value));
        }
        proof {
            assert forall|a: int, b: int|
                0 <= a < b < entries@.len() implies (#[trigger] entries@[a]).0 != (
            #[trigger] entries@[b]).0 by {
                if b < before.len() {
                    assert(before[a].0 != before[b].0);
                } else {
                    assert(before[a].0 != key);
                }
            }
        }
        self.entries = entries;
    }

    /// How many entries the map has.
    pub fn len(&self) -> (r: usize)
        ensures
            r == self@.len(),
    {
        self.entries.len()
    }

    /// The column that the entry at a position of the walk gives.
    pub fn value_at(&self, position: usize) -> (r: usize)
        requires
            position < self@.len(),
        ensures
            r == values_of(self@)[position as int],
    {
        self.entries[position].1
    }

    /// The set of the columns that the map gives.
    pub fn values(&self) -> (r: ColumnSet)
        ensures
            r@ == values_of(self@).to_set(),
            r.well_formed(),
    {
        let ghost all = values_of(self@);
        let mut r = ColumnSet::new();
        let mut i: usize = 0;
        assert(all.take(0).to_set() =~= Set::<usize>::empty());
        while i < self.entries.len()
            invariant
                i <= self@.len(),
                all == values_of(self@),
                r@ == all.take(i as int).to_set(),
                r.well_formed(),
            decreases self.entries.len() - i,
        {
            proof {
                lemma_take_to_set(all, i as int);
            }
            r.insert(self.entries[i].1);
            i += 1;
        }
        assert(all.take(i as int) =~= all);
        r
    }
}

/// After `bind`, the key gives the new value and every other key what it gave before.
pub proof fn law_lookup_after_bind(entries: Seq<(usize, usize)>, key: usize, value: usize, other: usize)
    ensures
        lookup(bind(entries, key, value), other) == if other == key {
            Some(value)
        } else {
            lookup(entries, other)
        },
{
    if has_key(entries, key) {
        lemma_lookup_rebind(entries, key, value, other);
    } else {
        assert(bind(entries, key, value).drop_last() =~= entries);
    }
}

proof fn lemma_lookup_rebind(entries: Seq<(usize, usize)>, key: usize, value: usize, other: usize)
    ensures
        lookup(rebind(entries, key, value), other) == if other == key && has_key(entries, key) {
            Some(value)
        } else {
            lookup(entries, other)
        },
    decreases entries.len(),
{
    if entries.len() > 0 {
        let rest = entries.drop_last();
        lemma_lookup_rebind(rest, key, value, other);
        assert(rebind(entries, key, value).drop_last() =~= rebind(rest, key, value));
        if entries.last().0 != key {
            assert(has_key(entries, key) == has_key(rest, key)) by {
                if has_key(entries, key) {
                    let k = choose|k: int| 0 <= k < entries.len() && (#[trigger] entries[k]).0 == key;
                    assert(rest[k].0 == key);
                }
                if has_key(rest, key) {
                    let k = choose|k: int| 0 <= k < rest.len() && (#[trigger] rest[k]).0 == key;
                    assert(entries[k].0 == key);
                }
            }
        } else {
            assert(entries[entries.len() - 1].0 == key);
        }
    }
}

/// A key gives a column exactly if there is an entry for it.
pub proof fn lemma_lookup_has_key(entries: Seq<(usize, usize)>, key: usize)
    ensures
        lookup(entries, key) is Some == has_key(entries, key),
        lookup(entries, key) matches Some(value) ==> values_of(entries).contains(value),
    decreases entries.len(),
{
    if entries.len() > 0 {
        let rest = entries.drop_last();
        lemma_lookup_has_key(rest, key);
        assert(entries[entries.len() - 1] == entries.last());
        if entries.last().0 == key {
            assert(values_of(entries)[entries.len() - 1] == entries.last().1);
        } else {
            if has_key(rest, key) {
                let k = choose|k: int| 0 <= k < rest.len() && (#[trigger] rest[k]).0 == key;
                assert(entries[k].0 == key);
            }
            if has_key(entries, key) {
                let k = choose|k: int| 0 <= k < entries.len() && (#[trigger] entries[k]).0 == key;
                assert(rest[k].0 == key);
            }
            if lookup(rest, key) is Some {
                let value = lookup(rest, key)->0;
                let k = choose|k: int| 0 <= k < values_of(rest).len() && values_of(rest)[k] == value;
                assert(values_of(entries)[k] == value);
            }
        }
    }
}

/// Where no two entries have one key, a key gives a column exactly if they are an entry together.
pub proof fn law_lookup_is_an_entry(entries: Seq<(usize, usize)>, key: usize, value: usize)
    requires
        distinct_keys(entries),
    ensures
        lookup(entries, key) == Some(value) <==> entries.contains((key, value)),
    decreases entries.len(),
{
    if entries.len() > 0 {
        let rest = entries.drop_last();
        let n = entries.len() - 1;
        assert(entries[n] == entries.last());
        assert forall|i: int, j: int| 0 <= i < j < rest.len() implies (#[trigger] rest[i]).0 != (
        #[trigger] rest[j]).0 by {
            assert(entries[i].0 != entries[j].0);
        }
        law_lookup_is_an_entry(rest, key, value);
        if rest.contains((key, value)) {
            let k = choose|k: int| 0 <= k < rest.len() && rest[k] == (key, value);
            assert(entries[k] == (key, value));
            assert(entries[k].0 != entries[n].0);
        }
        if entries.contains((key, value)) {
            let k = choose|k: int| 0 <= k < entries.len() && entries[k] == (key, value);
            if k < n {
                assert(rest[k] == (key, value));
            }
        }
    }
}

/// Binding a key keeps every key at its place, and puts a new one behind them.
pub proof fn law_bind_keeps_places(entries: Seq<(usize, usize)>, key: usize, value: usize)
    ensures
        forall|i: int|
            0 <= i < entries.len() ==> (#[trigger] bind(entries, key, value)[i]).0 == entries[i].0,
        has_key(entries, key) ==> bind(entries, key, value).len() == entries.len(),
        !has_key(entries, key) ==> bind(entries, key, value).len() == entries.len() + 1 && bind(
            entries,
            key,
            value,
        )[entries.len() as int] == (key, value),
{
}

} // verus!
