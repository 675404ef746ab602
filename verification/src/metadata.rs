//! The columns that a query knows.

use vstd::prelude::*;

use crate::column_set::ColumnSet;
use crate::types::DataType;

verus! {

/// A column of a table.
#[derive(Debug)]
pub struct BaseTableColumn {
    pub table_index: usize,
    pub column_index: usize,
    pub column_name: String,
    pub data_type: DataType,
}

/// A column that the query computes.
#[derive(Debug)]
pub struct DerivedColumn {
    pub column_index: usize,
    pub alias: String,
    pub data_type: DataType,
}

/// A column that a table has besides those that were declared.
#[derive(Debug)]
pub struct TableInternalColumn {
    pub table_index: usize,
    pub column_index: usize,
    pub column_name: String,
    pub data_type: DataType,
}

/// A column that is part of another column's value.
#[derive(Debug)]
pub struct VirtualColumn {
    pub table_index: usize,
    pub column_index: usize,
    pub column_name: String,
    pub data_type: DataType,
}

/// What is known of a column.
#[derive(Debug)]
pub enum ColumnEntry {
    BaseTableColumn(BaseTableColumn),
    DerivedColumn(DerivedColumn),
    InternalColumn(TableInternalColumn),
    VirtualColumn(VirtualColumn),
}

/// Where a column comes from.
pub enum ColumnSource {
    /// From the table with this number.
    BaseTable(usize),
    /// From the query.
    Derived,
    /// From the table with this number, which was not asked for it.
    Internal(usize),
    /// From another column of the table with this number.
    Virtual(usize),
}

/// A [`ColumnEntry`] by its contents.
pub struct ColumnEntryView {
    pub source: ColumnSource,
    pub column_index: usize,
    pub name: Seq<char>,
    pub data_type: DataType,
}

impl View for ColumnEntry {
    type V = ColumnEntryView;

    open spec fn view(&self) -> ColumnEntryView {
        match *self {
            ColumnEntry::BaseTableColumn(column) => ColumnEntryView {
                source: ColumnSource::BaseTable(column.table_index),
                column_index: column.column_index,
                name: column.column_name@,
                data_type: column.data_type,
            },
            ColumnEntry::DerivedColumn(column) => ColumnEntryView {
                source: ColumnSource::Derived,
                column_index: column.column_index,
                name: column.alias@,
                data_type: column.data_type,
            },
            ColumnEntry::InternalColumn(column) => ColumnEntryView {
                source: ColumnSource::Internal(column.table_index),
                column_index: column.column_index,
                name: column.column_name@,
                data_type: column.data_type,
            },
            ColumnEntry::VirtualColumn(column) => ColumnEntryView {
                source: ColumnSource::Virtual(column.table_index),
                column_index: column.column_index,
                name: column.column_name@,
                data_type: column.data_type,
            },
        }
    }
}

impl ColumnEntry {
    /// The name of the column.
    pub fn name(&self) -> (r: String)
        ensures
            r@ == self@.name,
    {
        match self {
            ColumnEntry::BaseTableColumn(column) => column.column_name.clone(),
            ColumnEntry::DerivedColumn(column) => column.alias.clone(),
            ColumnEntry::InternalColumn(column) => column.column_name.clone(),
            ColumnEntry::VirtualColumn(column) => column.column_name.clone(),
        }
    }

    /// The type of the column.
    pub fn data_type(&self) -> (r: DataType)
        ensures
            r == self@.data_type,
    {
        match self {
            ColumnEntry::BaseTableColumn(column) => column.data_type.clone(),
            ColumnEntry::DerivedColumn(column) => column.data_type.clone(),
            ColumnEntry::InternalColumn(column) => column.data_type.clone(),
            ColumnEntry::VirtualColumn(column) => column.data_type.clone(),
        }
    }
}

/// The columns of a query, by their numbers.
#[derive(Debug)]
pub struct Metadata {
    pub columns: Vec<ColumnEntry>,
}

impl View for Metadata {
    type V = Seq<ColumnEntryView>;

    open spec fn view(&self) -> Seq<ColumnEntryView> {
        self.columns@.map_values(|column: ColumnEntry| column@)
    }
}

/// The entry of a computed column.
pub open spec fn derived_entry(index: usize, name: Seq<char>, data_type: DataType) -> ColumnEntryView {
    ColumnEntryView { source: ColumnSource::Derived, column_index: index, name, data_type }
}

/// The columns with a computed column behind them.
pub open spec fn with_derived(
    columns: Seq<ColumnEntryView>,
    name: Seq<char>,
    data_type: DataType,
) -> Seq<ColumnEntryView> {
    columns.push(derived_entry(columns.len() as usize, name, data_type))
}

/// The table of the first table column that is one of `wanted`.
pub open spec fn table_of(columns: Seq<ColumnEntryView>, wanted: Seq<usize>) -> Option<usize>
    decreases columns.len(),
{
    if columns.len() == 0 {
        None
    } else {
        match table_of(columns.drop_last(), wanted) {
            Some(table) => Some(table),
            None => match columns.last().source {
                ColumnSource::BaseTable(table) => if wanted.contains(columns.last().column_index) {
                    Some(table)
                } else {
                    None
                },
                _ => None,
            },
        }
    }
}

impl Metadata {
    /// The entry of a column.
    pub fn column(&self, index: usize) -> (r: &ColumnEntry)
        requires
            index < self@.len(),
        ensures
            r@ == self@[index as int],
    {
        &self.columns[index]
    }

    /// How many columns there are.
    pub fn len(&self) -> (r: usize)
        ensures
            r == self@.len(),
    {
        self.columns.len()
    }

    /// Adds a computed column and gives its number.
    pub fn add_derived_column(&mut self, alias: String, data_type: DataType) -> (r: usize)
        ensures
            r == old(self)@.len(),
            final(self)@ == with_derived(old(self)@, alias@, data_type),
    {
        let column_index: usize = self.columns.len();
        self.columns.push(
            ColumnEntry::DerivedColumn(DerivedColumn { column_index, alias, data_type }),
        );
        assert(self@ =~= with_derived(old(self)@, alias@, data_type));
        column_index
    }

    /// The table of the first table column that is one of the columns.
    pub fn table_index_by_column_indexes(&self, column_indexes: &ColumnSet) -> (r: Option<usize>)
        ensures
            r == table_of(self@, column_indexes.order()),
    {
        let ghost wanted = column_indexes.order();
        let mut i: usize = 0;
        while i < self.columns.len()
            invariant
                i <= self.columns@.len(),
                wanted == column_indexes.order(),
                table_of(self@.take(i as int), wanted) is None,
            decreases self.columns.len() - i,
        {
            proof {
                assert(self@.take(i + 1).drop_last() =~= self@.take(i as int));
                assert(self@.take(i + 1).last() == self.columns@[i as int]@);
            }
            match &self.columns[i] {
                ColumnEntry::BaseTableColumn(column) => {
                    if column_indexes.contains(column.column_index) {
                        proof {
                            lemma_table_of_prefix(self@, wanted, i + 1);
                        }
                        return Some(column.table_index);
                    }
                },
                _ => {},
            }
            i += 1;
        }
        assert(self@.take(i as int) =~= self@);
        None
    }
}

/// A table found among the first columns is the one found among all.
pub proof fn lemma_table_of_prefix(columns: Seq<ColumnEntryView>, wanted: Seq<usize>, n: int)
    requires
        0 <= n <= columns.len(),
        table_of(columns.take(n), wanted) is Some,
    ensures
        table_of(columns, wanted) == table_of(columns.take(n), wanted),
    decreases columns.len() - n,
{
    if n < columns.len() {
        assert(columns.take(n + 1).drop_last() =~= columns.take(n));
        lemma_table_of_prefix(columns, wanted, n + 1);
    } else {
        assert(columns.take(n) =~= columns);
    }
}

} // verus!
