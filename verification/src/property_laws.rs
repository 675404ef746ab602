//! Which columns a plan gives and which it takes from around it, operator by operator.

use vstd::prelude::*;

use crate::error::ErrorCode;
use crate::laws::{outer_columns, output_columns};
use crate::plan::{item_scalars, join_used_columns, RelOperatorView, ScalarItemView};
use crate::property::{relational_prop, relational_prop_child, RelationalPropertyView};
use crate::s_expr::SExprView;
use crate::scalar::{used_by_all, used_columns, ScalarView};
use crate::scalar_laws::law_used_by_all_is_used_by_one;

verus! {

/// Whether one of the scalars uses a column.
pub open spec fn one_uses(scalars: Seq<ScalarView>, column: usize) -> bool {
    exists|i: int| 0 <= i < scalars.len() && used_columns(#[trigger] scalars[i]).contains(column)
}

/// Whether one of the items' scalars uses a column.
pub open spec fn one_item_uses(items: Seq<ScalarItemView>, column: usize) -> bool {
    exists|i: int|
        0 <= i < items.len() && used_columns((#[trigger] items[i]).scalar).contains(column)
}

/// Whether the value of one of the items goes to a column.
pub open spec fn one_goes_to(items: Seq<ScalarItemView>, column: usize) -> bool {
    exists|i: int| 0 <= i < items.len() && (#[trigger] items[i]).index == column
}

/// Whether an operator itself refers to a column in what it does with its inputs.
pub open spec fn refers_itself(operator: RelOperatorView, column: usize) -> bool {
    match operator {
        RelOperatorView::EvalScalar(items) => one_item_uses(items, column),
        RelOperatorView::Filter(filter) => one_uses(filter.predicates, column),
        RelOperatorView::Join(join) => one_uses(join.left_conditions, column) || one_uses(
            join.right_conditions,
            column,
        ) || one_uses(join.non_equi_conditions, column),
        RelOperatorView::Aggregate(aggregate) => one_item_uses(aggregate.group_items, column)
            || one_item_uses(aggregate.aggregate_functions, column),
        _ => false,
    }
}

/// How many inputs the property of an operator asks for.
pub open spec fn inputs(operator: RelOperatorView) -> int {
    match operator {
        RelOperatorView::Join(_) | RelOperatorView::UnionAll(_) => 2,
        RelOperatorView::Scan(_) | RelOperatorView::Opaque(_) => 0,
        _ => 1,
    }
}

/// Whether an input of a plan gives a column.
pub open spec fn input_gives(plan: SExprView, column: usize) -> bool {
    exists|i: int|
        0 <= i < inputs(plan.plan) && output_columns(#[trigger] plan.children[i]).contains(column)
}

/// Whether an input of a plan takes a column from around it.
pub open spec fn input_takes(plan: SExprView, column: usize) -> bool {
    exists|i: int|
        0 <= i < inputs(plan.plan) && outer_columns(#[trigger] plan.children[i]).contains(column)
}

proof fn lemma_one_uses(scalars: Seq<ScalarView>, column: usize)
    ensures
        used_by_all(scalars).contains(column) <==> one_uses(scalars, column),
{
    law_used_by_all_is_used_by_one(scalars, column);
}

proof fn lemma_one_item_uses(items: Seq<ScalarItemView>, column: usize)
    ensures
        used_by_all(item_scalars(items)).contains(column) <==> one_item_uses(items, column),
{
    let scalars = item_scalars(items);
    lemma_one_uses(scalars, column);
    if one_uses(scalars, column) {
        let i = choose|i: int|
            0 <= i < scalars.len() && used_columns(#[trigger] scalars[i]).contains(column);
        assert(used_columns(items[i].scalar).contains(column));
    }
    if one_item_uses(items, column) {
        let i = choose|i: int|
            0 <= i < items.len() && used_columns((#[trigger] items[i]).scalar).contains(column);
        assert(used_columns(scalars[i]).contains(column));
    }
}

proof fn lemma_one_goes_to(items: Seq<ScalarItemView>, column: usize)
    ensures
        items.map_values(|item: ScalarItemView| item.index).to_set().contains(column)
            <==> one_goes_to(items, column),
{
    let indexes = items.map_values(|item: ScalarItemView| item.index);
    if indexes.to_set().contains(column) {
        let i = choose|i: int| 0 <= i < indexes.len() && indexes[i] == column;
        assert(items[i].index == column);
    }
    if one_goes_to(items, column) {
        let i = choose|i: int| 0 <= i < items.len() && (#[trigger] items[i]).index == column;
        assert(indexes[i] == column);
    }
}

proof fn lemma_inputs(plan: SExprView, column: usize)
    ensures
        inputs(plan.plan) == 1 ==> (input_gives(plan, column) <==> output_columns(
            plan.children[0],
        ).contains(column)) && (input_takes(plan, column) <==> outer_columns(
            plan.children[0],
        ).contains(column)),
        inputs(plan.plan) == 2 ==> (input_gives(plan, column) <==> output_columns(
            plan.children[0],
        ).contains(column) || output_columns(plan.children[1]).contains(column)) && (input_takes(
            plan,
            column,
        ) <==> outer_columns(plan.children[0]).contains(column) || outer_columns(
            plan.children[1],
        ).contains(column)),
{
    let first = plan.children[0];
    let second = plan.children[1];
    assert(output_columns(first).contains(column) || !output_columns(first).contains(column));
    assert(output_columns(second).contains(column) || !output_columns(second).contains(column));
}

/// A plan takes a column from around it exactly if an input does, or it refers to the column itself
/// and no input gives it; an operator that is only carried says so for itself. It gives the columns
/// of its inputs and those that it adds; an aggregation gives what it computes alone.
pub proof fn law_plan_columns(plan: SExprView, column: usize)
    requires
        relational_prop(plan) is Ok,
    ensures
        outer_columns(plan).contains(column) <==> match plan.plan {
            RelOperatorView::Opaque(opaque) => opaque.outer_columns.contains(column),
            RelOperatorView::Scan(_) => false,
            _ => input_takes(plan, column) || (refers_itself(plan.plan, column) && !input_gives(
                plan,
                column,
            )),
        },
        output_columns(plan).contains(column) <==> match plan.plan {
            RelOperatorView::Opaque(opaque) => opaque.output_columns.contains(column),
            RelOperatorView::Scan(scan) => scan.columns.contains(column),
            RelOperatorView::Aggregate(aggregate) => one_goes_to(aggregate.group_items, column)
                || one_goes_to(aggregate.aggregate_functions, column),
            RelOperatorView::EvalScalar(items) => input_gives(plan, column) || one_goes_to(
                items,
                column,
            ),
            RelOperatorView::Join(join) => input_gives(plan, column) || join.marker_index == Some(
                column,
            ),
            _ => input_gives(plan, column),
        },
{
    lemma_inputs(plan, column);
    assert(inputs(plan.plan) >= 1 ==> relational_prop_child(plan, 0) is Ok);
    match plan.plan {
        RelOperatorView::EvalScalar(items) => {
            lemma_one_item_uses(items, column);
            lemma_one_goes_to(items, column);
        },
        RelOperatorView::Filter(filter) => {
            lemma_one_uses(filter.predicates, column);
        },
        RelOperatorView::Join(join) => {
            assert(relational_prop_child(plan, 1) is Ok);
            lemma_one_uses(join.left_conditions, column);
            lemma_one_uses(join.right_conditions, column);
            lemma_one_uses(join.non_equi_conditions, column);
            assert(join_used_columns(join).contains(column) <==> refers_itself(plan.plan, column));
        },
        RelOperatorView::Aggregate(aggregate) => {
            lemma_one_item_uses(aggregate.group_items, column);
            lemma_one_item_uses(aggregate.aggregate_functions, column);
            lemma_one_goes_to(aggregate.group_items, column);
            lemma_one_goes_to(aggregate.aggregate_functions, column);
        },
        RelOperatorView::UnionAll(_) => {
            assert(relational_prop_child(plan, 1) is Ok);
        },
        _ => {},
    }
}

/// A plan has a property exactly if each input that its operator asks for is there and has one.
/// Otherwise the first that does not says why: its position if it is missing.
pub proof fn law_plan_has_property(plan: SExprView)
    ensures
        relational_prop(plan) is Ok <==> forall|i: int|
            0 <= i < inputs(plan.plan) ==> i < plan.children.len() && relational_prop(
                #[trigger] plan.children[i],
            ) is Ok,
        inputs(plan.plan) >= 1 && plan.children.len() == 0 ==> relational_prop(plan) == Err::<
            RelationalPropertyView,
            ErrorCode,
        >(ErrorCode::InvalidChild(0)),
        inputs(plan.plan) >= 1 && plan.children.len() >= 1 && relational_prop(plan.children[0])
            is Err ==> relational_prop(plan) == relational_prop(plan.children[0]),
        inputs(plan.plan) == 2 && plan.children.len() == 1 && relational_prop(plan.children[0])
            is Ok ==> relational_prop(plan) == Err::<RelationalPropertyView, ErrorCode>(
            ErrorCode::InvalidChild(1),
        ),
        inputs(plan.plan) == 2 && plan.children.len() >= 2 && relational_prop(plan.children[0])
            is Ok && relational_prop(plan.children[1]) is Err ==> relational_prop(plan)
            == relational_prop(plan.children[1]),
{
    let first = relational_prop_child(plan, 0);
    let second = relational_prop_child(plan, 1);
    if plan.children.len() > 0 {
        assert(first == relational_prop(plan.children[0]));
    } else {
        assert(first is Err);
    }
    if plan.children.len() > 1 {
        assert(second == relational_prop(plan.children[1]));
    } else {
        assert(second is Err);
    }
    if relational_prop(plan) is Ok {
        assert forall|i: int| 0 <= i < inputs(plan.plan) implies i < plan.children.len()
            && relational_prop(#[trigger] plan.children[i]) is Ok by {
            if i == 0 {
                assert(first is Ok);
            } else {
                assert(second is Ok);
            }
        }
    }
    if forall|i: int|
        0 <= i < inputs(plan.plan) ==> i < plan.children.len() && relational_prop(
            #[trigger] plan.children[i],
        ) is Ok {
        if inputs(plan.plan) >= 1 {
            assert(relational_prop(plan.children[0]) is Ok);
        }
        if inputs(plan.plan) == 2 {
            assert(relational_prop(plan.children[1]) is Ok);
        }
    }
}

} // verus!
