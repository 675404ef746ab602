//! Views leave nothing out: what has the same view is the same in every part.

use vstd::prelude::*;

use crate::metadata::{ColumnEntry, Metadata};
use crate::plan::{item_views, RelOperator, ScalarItem};
use crate::s_expr::SExpr;
use crate::scalar::{scalar_views, ColumnBinding, ScalarExpr};

verus! {

/// Of names that may be missing.
pub open spec fn same_name(a: Option<String>, b: Option<String>) -> bool {
    match (a, b) {
        (Some(x), Some(y)) => x@ == y@,
        (None, None) => true,
        _ => false,
    }
}

/// Of references to columns.
pub proof fn law_binding_view(a: ColumnBinding, b: ColumnBinding)
    requires
        a@ == b@,
    ensures
        same_name(a.database_name, b.database_name),
        same_name(a.table_name, b.table_name),
        a.table_index == b.table_index,
        a.column_name@ == b.column_name@,
        a.index == b.index,
        *a.data_type == *b.data_type,
        a.visibility == b.visibility,
{
}

/// Of scalars, one level deep.
pub open spec fn same_scalar(a: ScalarExpr, b: ScalarExpr) -> bool {
    match (a, b) {
        (ScalarExpr::BoundColumnRef(x), ScalarExpr::BoundColumnRef(y)) => x.span == y.span
            && x.column@ == y.column@,
        (ScalarExpr::ConstantExpr(x), ScalarExpr::ConstantExpr(y)) => x == y,
        (ScalarExpr::AggregateFunction(x), ScalarExpr::AggregateFunction(y)) => {
            &&& x.display_name@ == y.display_name@
            &&& x.func_name@ == y.func_name@
            &&& x.distinct == y.distinct
            &&& x.params@ == y.params@
            &&& same_scalars(x.args@, y.args@)
            &&& *x.return_type == *y.return_type
        },
        (ScalarExpr::FunctionCall(x), ScalarExpr::FunctionCall(y)) => {
            &&& x.span == y.span
            &&& x.func_name@ == y.func_name@
            &&& x.params@ == y.params@
            &&& same_scalars(x.arguments@, y.arguments@)
        },
        (ScalarExpr::CastExpr(x), ScalarExpr::CastExpr(y)) => {
            &&& x.span == y.span
            &&& x.is_try == y.is_try
            &&& (*x.argument)@ == (*y.argument)@
            &&& *x.target_type == *y.target_type
        },
        (ScalarExpr::SubqueryExpr(x), ScalarExpr::SubqueryExpr(y)) => x == y,
        (ScalarExpr::Opaque(x), ScalarExpr::Opaque(y)) => x.id == y.id && x.used_columns@
            == y.used_columns@,
        _ => false,
    }
}

/// Of lists of scalars: as many, with the same view at each place.
pub open spec fn same_scalars(a: Seq<ScalarExpr>, b: Seq<ScalarExpr>) -> bool {
    &&& a.len() == b.len()
    &&& forall|i: int| 0 <= i < a.len() ==> (#[trigger] a[i])@ == b[i]@
}

proof fn lemma_same_scalars(a: Seq<ScalarExpr>, b: Seq<ScalarExpr>)
    requires
        scalar_views(a) == scalar_views(b),
    ensures
        same_scalars(a, b),
{
    assert(scalar_views(a).len() == a.len());
    assert(scalar_views(b).len() == b.len());
    assert forall|i: int| 0 <= i < a.len() implies (#[trigger] a[i])@ == b[i]@ by {
        assert(scalar_views(a)[i] == a[i]@);
        assert(scalar_views(b)[i] == b[i]@);
    }
}

/// Scalars with the same view are the same in every part.
pub proof fn law_scalar_view(a: ScalarExpr, b: ScalarExpr)
    requires
        a@ == b@,
    ensures
        same_scalar(a, b),
{
    match (a, b) {
        (ScalarExpr::AggregateFunction(x), ScalarExpr::AggregateFunction(y)) => {
            lemma_same_scalars(x.args@, y.args@);
        },
        (ScalarExpr::FunctionCall(x), ScalarExpr::FunctionCall(y)) => {
            lemma_same_scalars(x.arguments@, y.arguments@);
        },
        _ => {},
    }
}

/// Of items: as many, with the same scalar and the same column at each place.
pub open spec fn same_items(a: Seq<ScalarItem>, b: Seq<ScalarItem>) -> bool {
    &&& a.len() == b.len()
    &&& forall|i: int|
        0 <= i < a.len() ==> (#[trigger] a[i]).index == b[i].index && a[i].scalar@ == b[i].scalar@
}

proof fn lemma_same_items(a: Seq<ScalarItem>, b: Seq<ScalarItem>)
    requires
        item_views(a) == item_views(b),
    ensures
        same_items(a, b),
{
    assert(item_views(a).len() == a.len());
    assert(item_views(b).len() == b.len());
    assert forall|i: int| 0 <= i < a.len() implies (#[trigger] a[i]).index == b[i].index
        && a[i].scalar@ == b[i].scalar@ by {
        assert(item_views(a)[i] == a[i]@);
        assert(item_views(b)[i] == b[i]@);
    }
}

/// Of operators.
pub open spec fn same_operator(a: RelOperator, b: RelOperator) -> bool {
    match (a, b) {
        (RelOperator::EvalScalar(x), RelOperator::EvalScalar(y)) => same_items(x.items@, y.items@),
        (RelOperator::Filter(x), RelOperator::Filter(y)) => same_scalars(
            x.predicates@,
            y.predicates@,
        ) && x.is_having == y.is_having,
        (RelOperator::Join(x), RelOperator::Join(y)) => {
            &&& same_scalars(x.left_conditions@, y.left_conditions@)
            &&& same_scalars(x.right_conditions@, y.right_conditions@)
            &&& same_scalars(x.non_equi_conditions@, y.non_equi_conditions@)
            &&& x.join_type == y.join_type
            &&& x.marker_index == y.marker_index
            &&& x.from_correlated_subquery == y.from_correlated_subquery
            &&& x.contain_runtime_filter == y.contain_runtime_filter
        },
        (RelOperator::Aggregate(x), RelOperator::Aggregate(y)) => {
            &&& x.mode == y.mode
            &&& same_items(x.group_items@, y.group_items@)
            &&& same_items(x.aggregate_functions@, y.aggregate_functions@)
            &&& x.from_distinct == y.from_distinct
            &&& x.limit == y.limit
            &&& x.grouping_id_index == y.grouping_id_index
            &&& x.grouping_sets@.len() == y.grouping_sets@.len()
            &&& forall|i: int|
                0 <= i < x.grouping_sets@.len() ==> (#[trigger] x.grouping_sets@[i])@
                    == y.grouping_sets@[i]@
        },
        (RelOperator::Sort(x), RelOperator::Sort(y)) => x.items@ == y.items@ && x.limit == y.limit,
        (RelOperator::Limit(x), RelOperator::Limit(y)) => x == y,
        (RelOperator::UnionAll(x), RelOperator::UnionAll(y)) => x.pairs@ == y.pairs@,
        (RelOperator::Scan(x), RelOperator::Scan(y)) => {
            &&& x.table_index == y.table_index
            &&& x.columns@ == y.columns@
            &&& x.limit == y.limit
        },
        (RelOperator::Opaque(x), RelOperator::Opaque(y)) => {
            &&& x.id == y.id
            &&& x.output_columns@ == y.output_columns@
            &&& x.outer_columns@ == y.outer_columns@
        },
        _ => false,
    }
}

/// Operators with the same view are the same in every part.
pub proof fn law_operator_view(a: RelOperator, b: RelOperator)
    requires
        a@ == b@,
    ensures
        same_operator(a, b),
{
    match (a, b) {
        (RelOperator::EvalScalar(x), RelOperator::EvalScalar(y)) => {
            lemma_same_items(x.items@, y.items@);
        },
        (RelOperator::Filter(x), RelOperator::Filter(y)) => {
            lemma_same_scalars(x.predicates@, y.predicates@);
        },
        (RelOperator::Join(x), RelOperator::Join(y)) => {
            lemma_same_scalars(x.left_conditions@, y.left_conditions@);
            lemma_same_scalars(x.right_conditions@, y.right_conditions@);
            lemma_same_scalars(x.non_equi_conditions@, y.non_equi_conditions@);
        },
        (RelOperator::Aggregate(x), RelOperator::Aggregate(y)) => {
            lemma_same_items(x.group_items@, y.group_items@);
            lemma_same_items(x.aggregate_functions@, y.aggregate_functions@);
            let first = x.grouping_sets@.map_values(|set: Vec<usize>| set@);
            let second = y.grouping_sets@.map_values(|set: Vec<usize>| set@);
            assert(first == second);
            assert(first.len() == x.grouping_sets@.len());
            assert(second.len() == y.grouping_sets@.len());
            assert forall|i: int| 0 <= i < x.grouping_sets@.len() implies (
            #[trigger] x.grouping_sets@[i])@ == y.grouping_sets@[i]@ by {
                assert(first[i] == second[i]);
            }
        },
        _ => {},
    }
}

/// Plans with the same view have operators with the same view, and inputs with the same view, at
/// each place.
pub proof fn law_plan_view(a: SExpr, b: SExpr)
    requires
        a@ == b@,
    ensures
        a.plan@ == b.plan@,
        a.children@.len() == b.children@.len(),
        forall|i: int|
            0 <= i < a.children@.len() ==> (*(#[trigger] a.children@[i]))@ == (*b.children@[i])@,
{
    assert(a@.children.len() == a.children@.len());
    assert(b@.children.len() == b.children@.len());
    assert forall|i: int| 0 <= i < a.children@.len() implies (*(#[trigger] a.children@[i]))@ == (
    *b.children@[i])@ by {
        assert(a@.children[i] == (*a.children@[i])@);
        assert(b@.children[i] == (*b.children@[i])@);
    }
}

/// Of columns.
pub open spec fn same_column(a: ColumnEntry, b: ColumnEntry) -> bool {
    match (a, b) {
        (ColumnEntry::BaseTableColumn(x), ColumnEntry::BaseTableColumn(y)) => {
            &&& x.table_index == y.table_index
            &&& x.column_index == y.column_index
            &&& x.column_name@ == y.column_name@
            &&& x.data_type == y.data_type
        },
        (ColumnEntry::DerivedColumn(x), ColumnEntry::DerivedColumn(y)) => {
            &&& x.column_index == y.column_index
            &&& x.alias@ == y.alias@
            &&& x.data_type == y.data_type
        },
        (ColumnEntry::InternalColumn(x), ColumnEntry::InternalColumn(y)) => {
            &&& x.table_index == y.table_index
            &&& x.column_index == y.column_index
            &&& x.column_name@ == y.column_name@
            &&& x.data_type == y.data_type
        },
        (ColumnEntry::VirtualColumn(x), ColumnEntry::VirtualColumn(y)) => {
            &&& x.table_index == y.table_index
            &&& x.column_index == y.column_index
            &&& x.column_name@ == y.column_name@
            &&& x.data_type == y.data_type
        },
        _ => false,
    }
}

/// Queries with the same view have the same columns, each at its place.
pub proof fn law_metadata_view(a: Metadata, b: Metadata)
    requires
        a@ == b@,
    ensures
        a.columns@.len() == b.columns@.len(),
        forall|i: int|
            0 <= i < a.columns@.len() ==> same_column(#[trigger] a.columns@[i], b.columns@[i]),
{
    assert(a@.len() == a.columns@.len());
    assert(b@.len() == b.columns@.len());
    assert forall|i: int| 0 <= i < a.columns@.len() implies same_column(
        #[trigger] a.columns@[i],
        b.columns@[i],
    ) by {
        assert(a@[i] == a.columns@[i]@);
        assert(b@[i] == b.columns@[i]@);
    }
}

} // verus!
