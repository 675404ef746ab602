//! Sets of columns.

use vstd::prelude::*;

use crate::types::copy_values;

verus! {

/// A set of columns. It is walked in the order in which its columns came in.
#[derive(Debug)]
pub struct ColumnSet {
    columns: Vec<usize>,
}

impl View for ColumnSet {
    type V = Set<usize>;

    open spec fn view(&self) -> Set<usize> {
        self.order().to_set()
    }
}

/// Whether a set of columns and a list of columns have one in common.
pub open spec fn touches(columns: Set<usize>, list: Seq<usize>) -> bool {
    exists|c: usize| #[trigger] columns.contains(c) && list.contains(c)
}

impl ColumnSet {
    /// The columns, in the order in which they are walked.
    pub closed spec fn order(&self) -> Seq<usize> {
        self.columns@
    }

    /// No column occurs twice.
    #[verifier::type_invariant]
    pub open spec fn well_formed(&self) -> bool {
        self.order().no_duplicates()
    }

    /// The empty set.
    pub fn new() -> (r: Self)
        ensures
            r.order() == Seq::<usize>::empty(),
            r@ == Set::<usize>::empty(),
            r.well_formed(),
    {
        let r = ColumnSet { columns: Vec::new() };
        assert(r@ =~= Set::<usize>::empty());
        r
    }

    /// The set of the columns in `columns`.
    pub fn from_columns(columns: &Vec<usize>) -> (r: Self)
        ensures
            r@ == columns@.to_set(),
            columns@.no_duplicates() ==> r.order() == columns@,
            r.well_formed(),
    {
        let mut r = ColumnSet::new();
        let mut i: usize = 0;
        while i < columns.len()
            invariant
                i <= columns@.len(),
                r.well_formed(),
                r@ == columns@.take(i as int).to_set(),
                columns@.no_duplicates() ==> r.order() == columns@.take(i as int),
            decreases columns.len() - i,
        {
            let ghost before = columns@.take(i as int);
            r.insert(columns[i]);
            proof {
                lemma_take_to_set(columns@, i as int);
                assert(columns@.take(i + 1) =~= before.push(columns@[i as int]));
                if columns@.no_duplicates() {
                    assert(!before.contains(columns@[i as int]));
                }
            }
            i += 1;
        }
        proof {
            assert(columns@.take(i as int) =~= columns@);
        }
        r
    }

    /// Adds a column, behind the others if it was not there.
    pub fn insert(&mut self, column: usize)
        ensures
            final(self)@ == old(self)@.insert(column),
            final(self).order() == if old(self)@.contains(column) {
                old(self).order()
            } else {
                old(self).order().push(column)
            },
            final(self).well_formed(),
    {
        proof {
            use_type_invariant(&*self);
        }
        if !self.contains(column) {
            let mut columns: Vec<usize> = Vec::new();
            std::mem::swap(&mut columns, &mut self.columns);
            columns.push(column);
            self.columns = columns;
            proof {
                let before = old(self).order();
                let after = self.order();
                assert(after =~= before.push(column));
                assert forall|c: usize| before.contains(c) || c == column implies after.contains(c) by {
                    if c == column {
                        assert(after[before.len() as int] == c);
                    } else {
                        let k = choose|k: int| 0 <= k < before.len() && before[k] == c;
                        assert(after[k] == c);
                    }
                }
                assert(self@ =~= old(self)@.insert(column));
            }
        } else {
            assert(self@ =~= old(self)@.insert(column));
        }
    }

    /// Whether the column is in the set.
    pub fn contains(&self, column: usize) -> (r: bool)
        ensures
            r == self@.contains(column),
            r == self.order().contains(column),
    {
        let mut i: usize = 0;
        while i < self.columns.len()
            invariant
                i <= self.columns@.len(),
                forall|k: int| 0 <= k < i ==> self.columns@[k] != column,
            decreases self.columns.len() - i,
        {
            if self.columns[i] == column {
                assert(self.order()[i as int] == column);
                return true;
            }
            i += 1;
        }
        false
    }

    /// Whether the set has no column.
    pub fn is_empty(&self) -> (r: bool)
        ensures
            r == (self@ == Set::<usize>::empty()),
            r == (self.order().len() == 0),
    {
        let r = self.columns.len() == 0;
        proof {
            if r {
                assert(self@ =~= Set::<usize>::empty());
            } else {
                assert(self@.contains(self.order()[0]));
            }
        }
        r
    }

    /// How many columns are in the set.
    pub fn len(&self) -> (r: usize)
        ensures
            r == self.order().len(),
            r == self@.len(),
    {
        proof {
            use_type_invariant(self);
            self.order().unique_seq_to_set();
        }
        self.columns.len()
    }

    /// The column at a position of the walk.
    pub fn get(&self, position: usize) -> (r: usize)
        requires
            position < self.order().len(),
        ensures
            r == self.order()[position as int],
    {
        self.columns[position]
    }

    /// A copy of the set.
    pub fn copy(&self) -> (r: Self)
        ensures
            r.order() == self.order(),
    {
        proof {
            use_type_invariant(self);
        }
        ColumnSet { columns: copy_values(&self.columns) }
    }

    /// Adds every column of another set.
    pub fn extend(&mut self, other: &ColumnSet)
        ensures
            final(self)@ == old(self)@.union(other@),
            final(self).well_formed(),
    {
        let mut i: usize = 0;
        proof {
            use_type_invariant(&*self);
        }
        assert(self@ =~= old(self)@.union(other.order().take(0).to_set()));
        while i < other.len()
            invariant
                i <= other.order().len(),
                self@ == old(self)@.union(other.order().take(i as int).to_set()),
                self.well_formed(),
            decreases other.order().len() - i,
        {
            let column = other.get(i);
            let ghost before = self@;
            self.insert(column);
            proof {
                lemma_take_to_set(other.order(), i as int);
                assert(self@ =~= old(self)@.union(other.order().take(i + 1).to_set()));
            }
            i += 1;
        }
        proof {
            assert(other.order().take(i as int) =~= other.order());
        }
    }

    /// The columns of this set that are not in the other.
    pub fn difference(&self, other: &ColumnSet) -> (r: Self)
        ensures
            r@ == self@.difference(other@),
            r.well_formed(),
    {
        let mut r = ColumnSet::new();
        let mut i: usize = 0;
        assert(r@ =~= self.order().take(0).to_set().difference(other@));
        while i < self.len()
            invariant
                i <= self.order().len(),
                r@ == self.order().take(i as int).to_set().difference(other@),
                r.well_formed(),
            decreases self.order().len() - i,
        {
            let column = self.get(i);
            if !other.contains(column) {
                r.insert(column);
            }
            proof {
                lemma_take_to_set(self.order(), i as int);
                assert(r@ =~= self.order().take(i + 1).to_set().difference(other@));
            }
            i += 1;
        }
        proof {
            assert(self.order().take(i as int) =~= self.order());
        }
        r
    }

    /// Whether every column of this set is in the other.
    pub fn is_subset(&self, other: &ColumnSet) -> (r: bool)
        ensures
            r == self@.subset_of(other@),
    {
        let mut i: usize = 0;
        while i < self.len()
            invariant
                i <= self.order().len(),
                forall|k: int| 0 <= k < i ==> other@.contains(#[trigger] self.order()[k]),
            decreases self.order().len() - i,
        {
            let column = self.get(i);
            if !other.contains(column) {
                assert(self@.contains(self.order()[i as int]));
                return false;
            }
            i += 1;
        }
        true
    }

    /// Whether a column of this set is in the other.
    pub fn intersects(&self, other: &ColumnSet) -> (r: bool)
        ensures
            r == touches(self@, other.order()),
    {
        let mut i: usize = 0;
        while i < self.len()
            invariant
                i <= self.order().len(),
                forall|k: int| 0 <= k < i ==> !other.order().contains(#[trigger] self.order()[k]),
            decreases self.order().len() - i,
        {
            let column = self.get(i);
            if other.contains(column) {
                assert(self@.contains(self.order()[i as int]));
                return true;
            }
            i += 1;
        }
        assert forall|c: usize| #[trigger] self@.contains(c) implies !other.order().contains(c) by {
            let k = choose|k: int| 0 <= k < self.order().len() && self.order()[k] == c;
            assert(!other.order().contains(self.order()[k]));
        }
        false
    }
}

/// One more element of a sequence is one more element of its set.
pub proof fn lemma_take_to_set(s: Seq<usize>, i: int)
    requires
        0 <= i < s.len(),
    ensures
        s.take(i + 1).to_set() == s.take(i).to_set().insert(s[i]),
{
    let before = s.take(i);
    let after = s.take(i + 1);
    assert(after =~= before.push(s[i]));
    assert forall|c: usize| after.to_set().contains(c) == before.to_set().insert(s[i]).contains(c) by {
        if after.contains(c) {
            let k = choose|k: int| 0 <= k < after.len() && after[k] == c;
            if k < i {
                assert(before[k] == c);
            }
        }
        if before.contains(c) {
            let k = choose|k: int| 0 <= k < before.len() && before[k] == c;
            assert(after[k] == c);
        }
        if c == s[i] {
            assert(after[i] == c);
        }
    }
    assert(after.to_set() =~= before.to_set().insert(s[i]));
}

} // verus!
