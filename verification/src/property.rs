//! The columns that a plan gives and the columns that it takes from around it.

use vstd::prelude::*;

use crate::column_set::ColumnSet;
use crate::error::ErrorCode;
use crate::plan::{
    columns_of_items, columns_used_by_items, item_columns, items_used_columns, join_used_columns,
    RelOperator, RelOperatorView,
};
use crate::s_expr::{SExpr, SExprView};
use crate::scalar::{columns_used_by, used_by_all};

verus! {

/// What can be said of a plan as a whole.
#[derive(Debug)]
pub struct RelationalProperty {
    /// The columns that the plan gives.
    pub output_columns: ColumnSet,
    /// The columns that the plan refers to and that nothing beneath the reference gives.
    pub outer_columns: ColumnSet,
}

/// A [`RelationalProperty`] by its contents.
pub struct RelationalPropertyView {
    pub output_columns: Set<usize>,
    pub outer_columns: Set<usize>,
}

impl View for RelationalProperty {
    type V = RelationalPropertyView;

    open spec fn view(&self) -> RelationalPropertyView {
        RelationalPropertyView {
            output_columns: self.output_columns@,
            outer_columns: self.outer_columns@,
        }
    }
}

/// The property of an input of a plan.
pub open spec fn relational_prop_child(s_expr: SExprView, position: usize) -> Result<
    RelationalPropertyView,
    ErrorCode,
>
    decreases s_expr, 0nat,
{
    if position < s_expr.children.len() {
        relational_prop(s_expr.children[position as int])
    } else {
        Err(ErrorCode::InvalidChild(position))
    }
}

/// The property of an operator over one input that refers to the columns `used` and gives the
/// columns `added` besides those of its input.
pub open spec fn over_child(
    child: Result<RelationalPropertyView, ErrorCode>,
    used: Set<usize>,
    added: Set<usize>,
) -> Result<RelationalPropertyView, ErrorCode> {
    match child {
        Err(e) => Err(e),
        Ok(input) => Ok(
            RelationalPropertyView {
                output_columns: input.output_columns.union(added),
                outer_columns: input.outer_columns.union(used.difference(input.output_columns)),
            },
        ),
    }
}

/// The property of an operator over two inputs that refers to the columns `used` and gives the
/// columns `added` besides those of its inputs.
pub open spec fn over_children(
    left: Result<RelationalPropertyView, ErrorCode>,
    right: Result<RelationalPropertyView, ErrorCode>,
    used: Set<usize>,
    added: Set<usize>,
) -> Result<RelationalPropertyView, ErrorCode> {
    match left {
        Err(e) => Err(e),
        Ok(l) => match right {
            Err(e) => Err(e),
            Ok(r) => {
                let input = l.output_columns.union(r.output_columns);
                Ok(
                    RelationalPropertyView {
                        output_columns: input.union(added),
                        outer_columns: l.outer_columns.union(r.outer_columns).union(
                            used.difference(input),
                        ),
                    },
                )
            },
        },
    }
}

/// The set of the columns in an option.
pub open spec fn option_column(column: Option<usize>) -> Set<usize> {
    match column {
        Some(c) => set![c],
        None => Set::empty(),
    }
}

/// The columns that a plan gives and those that it takes from around it, or the first input that
/// an operator of the plan lacks.
pub open spec fn relational_prop(s_expr: SExprView) -> Result<RelationalPropertyView, ErrorCode>
    decreases s_expr, 1nat,
{
    match s_expr.plan {
        RelOperatorView::EvalScalar(items) => over_child(
            relational_prop_child(s_expr, 0),
            items_used_columns(items),
            item_columns(items),
        ),
        RelOperatorView::Filter(filter) => over_child(
            relational_prop_child(s_expr, 0),
            used_by_all(filter.predicates),
            Set::empty(),
        ),
        RelOperatorView::Join(join) => over_children(
            relational_prop_child(s_expr, 0),
            relational_prop_child(s_expr, 1),
            join_used_columns(join),
            option_column(join.marker_index),
        ),
        RelOperatorView::Aggregate(aggregate) => match over_child(
            relational_prop_child(s_expr, 0),
            items_used_columns(aggregate.group_items).union(
                items_used_columns(aggregate.aggregate_functions),
            ),
            Set::empty(),
        ) {
            Err(e) => Err(e),
            Ok(over) => Ok(
                RelationalPropertyView {
                    output_columns: item_columns(aggregate.group_items).union(
                        item_columns(aggregate.aggregate_functions),
                    ),
                    outer_columns: over.outer_columns,
                },
            ),
        },
        RelOperatorView::Sort(_, _) => relational_prop_child(s_expr, 0),
        RelOperatorView::Limit(_) => relational_prop_child(s_expr, 0),
        RelOperatorView::UnionAll(_) => over_children(
            relational_prop_child(s_expr, 0),
            relational_prop_child(s_expr, 1),
            Set::empty(),
            Set::empty(),
        ),
        RelOperatorView::Scan(scan) => Ok(
            RelationalPropertyView { output_columns: scan.columns, outer_columns: Set::empty() },
        ),
        RelOperatorView::Opaque(opaque) => Ok(
            RelationalPropertyView {
                output_columns: opaque.output_columns,
                outer_columns: opaque.outer_columns,
            },
        ),
    }
}

impl SExpr {
    /// The property of the input at a position.
    pub fn derive_relational_prop_child(&self, position: usize) -> (r: Result<
        RelationalProperty,
        ErrorCode,
    >)
        ensures
            match r {
                Ok(prop) => relational_prop_child(self@, position) == Ok::<
                    RelationalPropertyView,
                    ErrorCode,
                >(prop@),
                Err(e) => relational_prop_child(self@, position) == Err::<
                    RelationalPropertyView,
                    ErrorCode,
                >(e),
            },
        decreases self@, 0nat,
    {
        match self.child(position) {
            Ok(child) => {
                assert(decreases_to!(self@ => self@.children[position as int]));
                child.derive_relational_prop()
            },
            Err(e) => Err(e),
        }
    }

    /// The property of the plan.
    pub fn derive_relational_prop(&self) -> (r: Result<RelationalProperty, ErrorCode>)
        ensures
            match r {
                Ok(prop) => relational_prop(self@) == Ok::<RelationalPropertyView, ErrorCode>(
                    prop@,
                ),
                Err(e) => relational_prop(self@) == Err::<RelationalPropertyView, ErrorCode>(e),
            },
        decreases self@, 1nat,
    {
        match &*self.plan {
            RelOperator::EvalScalar(eval) => {
                let input = self.derive_relational_prop_child(0)?;
                let used = columns_used_by_items(&eval.items);
                let mut output_columns = input.output_columns.copy();
                output_columns.extend(&columns_of_items(&eval.items));
                let mut outer_columns = input.outer_columns;
                outer_columns.extend(&used.difference(&input.output_columns));
                Ok(RelationalProperty { output_columns, outer_columns })
            },
            RelOperator::Filter(filter) => {
                let input = self.derive_relational_prop_child(0)?;
                let used = columns_used_by(&filter.predicates);
                let mut outer_columns = input.outer_columns;
                outer_columns.extend(&used.difference(&input.output_columns));
                proof {
                    assert(input.output_columns@.union(Set::empty()) =~= input.output_columns@);
                }
                Ok(RelationalProperty { output_columns: input.output_columns, outer_columns })
            },
            RelOperator::Join(join) => {
                let left = self.derive_relational_prop_child(0)?;
                let right = self.derive_relational_prop_child(1)?;
                let used = join.used_columns();
                let mut output_columns = left.output_columns;
                output_columns.extend(&right.output_columns);
                let mut outer_columns = left.outer_columns;
                outer_columns.extend(&right.outer_columns);
                outer_columns.extend(&used.difference(&output_columns));
                let ghost input = output_columns@;
                match join.marker_index {
                    Some(marker_index) => {
                        output_columns.insert(marker_index);
                        assert(output_columns@ =~= input.union(option_column(join.marker_index)));
                    },
                    None => {
                        assert(output_columns@ =~= input.union(option_column(join.marker_index)));
                    },
                }
                Ok(RelationalProperty { output_columns, outer_columns })
            },
            RelOperator::Aggregate(aggregate) => {
                let input = self.derive_relational_prop_child(0)?;
                let mut used = columns_used_by_items(&aggregate.group_items);
                used.extend(&columns_used_by_items(&aggregate.aggregate_functions));
                let mut output_columns = columns_of_items(&aggregate.group_items);
                output_columns.extend(&columns_of_items(&aggregate.aggregate_functions));
                let mut outer_columns = input.outer_columns;
                outer_columns.extend(&used.difference(&input.output_columns));
                Ok(RelationalProperty { output_columns, outer_columns })
            },
            RelOperator::Sort(_) => self.derive_relational_prop_child(0),
            RelOperator::Limit(_) => self.derive_relational_prop_child(0),
            RelOperator::UnionAll(_) => {
                let left = self.derive_relational_prop_child(0)?;
                let right = self.derive_relational_prop_child(1)?;
                let mut output_columns = left.output_columns;
                output_columns.extend(&right.output_columns);
                let mut outer_columns = left.outer_columns;
                outer_columns.extend(&right.outer_columns);
                proof {
                    assert(output_columns@.union(Set::empty()) =~= output_columns@);
                    assert(Set::<usize>::empty().difference(output_columns@) =~= Set::empty());
                    assert(outer_columns@.union(Set::empty()) =~= outer_columns@);
                }
                Ok(RelationalProperty { output_columns, outer_columns })
            },
            RelOperator::Scan(scan) => Ok(
                RelationalProperty {
                    output_columns: scan.columns.copy(),
                    outer_columns: ColumnSet::new(),
                },
            ),
            RelOperator::Opaque(opaque) => Ok(
                RelationalProperty {
                    output_columns: opaque.output_columns.copy(),
                    outer_columns: opaque.outer_columns.copy(),
                },
            ),
        }
    }
}

} // verus!
