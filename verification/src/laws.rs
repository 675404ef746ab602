//! What a flat scalar refers to and what a flat plan gives.

use vstd::prelude::*;

use crate::column_map::lookup;
use crate::column_set::touches;
use crate::metadata::ColumnEntryView;
use crate::model::{
    aggregate_used_columns, derived_group_items, derived_items, enter_filter, eval_used_columns,
    flatten, flatten_aggregates, flatten_child, flatten_children, flatten_scalar, flatten_scalars,
    with_scalars, FlattenState, Outcome, Run,
};
use crate::plan::{
    item_columns, item_scalars, join_used_columns, union_used_columns, RelOperatorView,
    ScalarItemView,
};
use crate::property::{relational_prop, relational_prop_child};
use crate::s_expr::SExprView;
use crate::scalar::{used_by_all, used_columns, ScalarView};

verus! {

/// The columns that a plan gives.
pub open spec fn output_columns(plan: SExprView) -> Set<usize> {
    match relational_prop(plan) {
        Ok(prop) => prop.output_columns,
        Err(_) => Set::empty(),
    }
}

/// The columns that a plan takes from around it.
pub open spec fn outer_columns(plan: SExprView) -> Set<usize> {
    match relational_prop(plan) {
        Ok(prop) => prop.outer_columns,
        Err(_) => Set::empty(),
    }
}

/// The plan that a finished step gives.
pub open spec fn flat_plan(run: Run<SExprView>) -> SExprView {
    match run {
        Run::Done(_, plan) => plan,
        _ => arbitrary(),
    }
}

/// The state that a finished step leaves behind.
pub open spec fn state_after<T>(run: Run<T>) -> FlattenState {
    match run {
        Run::Done(state, _) => state,
        Run::Failed(state, _) => state,
        _ => arbitrary(),
    }
}

pub proof fn lemma_prop_of_unary(operator: RelOperatorView, child: SExprView)
    ensures
        relational_prop_child(SExprView::unary(operator, child), 0) == relational_prop(child),
{
    assert(SExprView::unary(operator, child).children[0] == child);
}

pub proof fn lemma_prop_of_binary(operator: RelOperatorView, left: SExprView, right: SExprView)
    ensures
        relational_prop_child(SExprView::binary(operator, left, right), 0) == relational_prop(left),
        relational_prop_child(SExprView::binary(operator, left, right), 1) == relational_prop(
            right,
        ),
{
    assert(SExprView::binary(operator, left, right).children[0] == left);
    assert(SExprView::binary(operator, left, right).children[1] == right);
}

/// A finished step over two inputs, taken apart.
pub proof fn lemma_flatten_children(
    state: FlattenState,
    correlated: Seq<usize>,
    plan: SExprView,
    need_cross_join: bool,
    operator: RelOperatorView,
)
    requires
        flatten_children(state, correlated, plan, need_cross_join, operator) is Done,
    ensures
        plan.children.len() >= 2,
        ({
            let left = flatten(state, correlated, plan.children[0], need_cross_join);
            let right = flatten(
                state_after(left),
                correlated,
                plan.children[1],
                need_cross_join,
            );
            &&& left is Done
            &&& right is Done
            &&& flatten_children(state, correlated, plan, need_cross_join, operator) == Run::Done(
                state_after(right),
                SExprView::binary(operator, flat_plan(left), flat_plan(right)),
            )
        }),
{
    let first = flatten_child(state, correlated, plan, 0, need_cross_join);
    assert(first is Done);
    assert(flatten_child(state_after(first), correlated, plan, 1, need_cross_join) is Done);
}

pub proof fn lemma_item_columns(
    items: Seq<ScalarItemView>,
    added: Seq<ScalarItemView>,
    scalars: Seq<ScalarView>,
)
    requires
        scalars.len() == items.len(),
    ensures
        item_columns(items).subset_of(item_columns(with_scalars(items, scalars) + added)),
        item_columns(added).subset_of(item_columns(with_scalars(items, scalars) + added)),
{
    let all = with_scalars(items, scalars) + added;
    let indexes = all.map_values(|item: ScalarItemView| item.index);
    let old_indexes = items.map_values(|item: ScalarItemView| item.index);
    let new_indexes = added.map_values(|item: ScalarItemView| item.index);
    assert forall|c: usize| item_columns(items).contains(c) implies item_columns(all).contains(c) by {
        let k = choose|k: int| 0 <= k < old_indexes.len() && old_indexes[k] == c;
        assert(indexes[k] == c);
    }
    assert forall|c: usize| item_columns(added).contains(c) implies item_columns(all).contains(c) by {
        let k = choose|k: int| 0 <= k < new_indexes.len() && new_indexes[k] == c;
        assert(indexes[items.len() + k] == c);
    }
}

/// Flattening keeps the number of scalars.
pub proof fn lemma_flatten_scalars_len(
    columns: Seq<ColumnEntryView>,
    derived: Seq<(usize, usize)>,
    correlated: Seq<usize>,
    scalars: Seq<ScalarView>,
)
    ensures
        flatten_scalars(columns, derived, correlated, scalars) matches Outcome::Done(flat)
            ==> flat.len() == scalars.len(),
    decreases scalars.len(),
{
    if scalars.len() > 0 {
        lemma_flatten_scalars_len(columns, derived, correlated, scalars.drop_last());
    }
}

/// Flattening keeps the columns that the values of aggregate functions go to, and changes nothing
/// but the note on functions that count.
pub proof fn lemma_flatten_aggregates_frame(
    state: FlattenState,
    correlated: Seq<usize>,
    items: Seq<ScalarItemView>,
)
    ensures
        flatten_aggregates(state, correlated, items) matches Run::Done(next, flat) ==> {
            &&& next.columns == state.columns
            &&& next.derived == state.derived
            &&& flat.len() == items.len()
            &&& forall|i: int| 0 <= i < items.len() ==> #[trigger] flat[i].index == items[i].index
        },
        flatten_aggregates(state, correlated, items) matches Run::Failed(next, _) ==> {
            &&& next.columns == state.columns
            &&& next.derived == state.derived
        },
    decreases items.len(),
{
    if items.len() > 0 {
        lemma_flatten_aggregates_frame(state, correlated, items.drop_last());
    }
}

/// The columns `used`, with derived columns in place of the correlated ones.
pub open spec fn substituted(
    derived: Seq<(usize, usize)>,
    correlated: Seq<usize>,
    used: Set<usize>,
) -> Set<usize> {
    Set::new(
        |c: usize|
            {
                ||| used.contains(c) && !correlated.contains(c)
                ||| exists|k: usize| #[trigger]
                    used.contains(k) && correlated.contains(k) && lookup(derived, k) == Some(c)
            },
    )
}

proof fn lemma_substituted_union(
    derived: Seq<(usize, usize)>,
    correlated: Seq<usize>,
    a: Set<usize>,
    b: Set<usize>,
)
    ensures
        substituted(derived, correlated, a.union(b)) == substituted(derived, correlated, a).union(
            substituted(derived, correlated, b),
        ),
{
    let whole = substituted(derived, correlated, a.union(b));
    let parts = substituted(derived, correlated, a).union(substituted(derived, correlated, b));
    assert forall|c: usize| whole.contains(c) implies parts.contains(c) by {
        if !(a.union(b).contains(c) && !correlated.contains(c)) {
            let k = choose|k: usize| #[trigger]
                a.union(b).contains(k) && correlated.contains(k) && lookup(derived, k) == Some(c);
            assert(a.contains(k) || b.contains(k));
        }
    }
    assert forall|c: usize| parts.contains(c) implies whole.contains(c) by {
        if substituted(derived, correlated, a).contains(c) {
            if !(a.contains(c) && !correlated.contains(c)) {
                let k = choose|k: usize| #[trigger]
                    a.contains(k) && correlated.contains(k) && lookup(derived, k) == Some(c);
                assert(a.union(b).contains(k));
            }
        } else {
            if !(b.contains(c) && !correlated.contains(c)) {
                let k = choose|k: usize| #[trigger]
                    b.contains(k) && correlated.contains(k) && lookup(derived, k) == Some(c);
                assert(a.union(b).contains(k));
            }
        }
    }
    assert(whole =~= parts);
}

/// A flat scalar refers to the columns that the scalar referred to, with derived columns in place
/// of the correlated ones, and to no others.
pub proof fn law_flatten_scalar_columns(
    columns: Seq<ColumnEntryView>,
    derived: Seq<(usize, usize)>,
    correlated: Seq<usize>,
    scalar: ScalarView,
)
    ensures
        flatten_scalar(columns, derived, correlated, scalar) matches Outcome::Done(flat)
            ==> used_columns(flat) == substituted(derived, correlated, used_columns(scalar)),
    decreases scalar,
{
    if flatten_scalar(columns, derived, correlated, scalar) is Done {
        let flat = flatten_scalar(columns, derived, correlated, scalar)->Done_0;
        match scalar {
            ScalarView::BoundColumnRef(column) => {
                let c = column.column.index;
                assert(used_columns(scalar).contains(c));
                assert(used_columns(flat) =~= substituted(
                    derived,
                    correlated,
                    used_columns(scalar),
                ));
            },
            ScalarView::ConstantExpr(_) => {
                assert(used_columns(flat) =~= substituted(
                    derived,
                    correlated,
                    used_columns(scalar),
                ));
            },
            ScalarView::AggregateFunction(agg) => {
                law_flatten_scalars_columns(columns, derived, correlated, agg.args);
            },
            ScalarView::FunctionCall(func) => {
                law_flatten_scalars_columns(columns, derived, correlated, func.arguments);
            },
            ScalarView::CastExpr(cast) => {
                law_flatten_scalar_columns(columns, derived, correlated, *cast.argument);
            },
            ScalarView::SubqueryExpr(_) => {},
            ScalarView::Opaque(_) => {},
        }
    }
}

/// As [`law_flatten_scalar_columns`], for scalars together.
pub proof fn law_flatten_scalars_columns(
    columns: Seq<ColumnEntryView>,
    derived: Seq<(usize, usize)>,
    correlated: Seq<usize>,
    scalars: Seq<ScalarView>,
)
    ensures
        flatten_scalars(columns, derived, correlated, scalars) matches Outcome::Done(flat)
            ==> used_by_all(flat) == substituted(derived, correlated, used_by_all(scalars)),
    decreases scalars,
{
    if flatten_scalars(columns, derived, correlated, scalars) is Done {
        let flat = flatten_scalars(columns, derived, correlated, scalars)->Done_0;
        if scalars.len() == 0 {
            assert(used_by_all(flat) =~= substituted(
                derived,
                correlated,
                used_by_all(scalars),
            ));
        } else {
            law_flatten_scalars_columns(columns, derived, correlated, scalars.drop_last());
            law_flatten_scalar_columns(columns, derived, correlated, scalars.last());
            lemma_substituted_union(
                derived,
                correlated,
                used_by_all(scalars.drop_last()),
                used_columns(scalars.last()),
            );
            let front = flatten_scalars(
                columns,
                derived,
                correlated,
                scalars.drop_last(),
            )->Done_0;
            assert(flat.drop_last() =~= front);
        }
    }
}

/// A scalar that refers to no correlated column stays as it is.
pub proof fn law_flatten_scalar_unchanged(
    columns: Seq<ColumnEntryView>,
    derived: Seq<(usize, usize)>,
    correlated: Seq<usize>,
    scalar: ScalarView,
)
    requires
        !touches(used_columns(scalar), correlated),
    ensures
        flatten_scalar(columns, derived, correlated, scalar) matches Outcome::Done(flat) ==> flat
            == scalar,
        !(flatten_scalar(columns, derived, correlated, scalar) is Undefined),
    decreases scalar,
{
    match scalar {
        ScalarView::BoundColumnRef(column) => {
            assert(used_columns(scalar).contains(column.column.index));
        },
        ScalarView::AggregateFunction(agg) => {
            lemma_flatten_scalars_unchanged(columns, derived, correlated, agg.args);
        },
        ScalarView::FunctionCall(func) => {
            lemma_flatten_scalars_unchanged(columns, derived, correlated, func.arguments);
        },
        ScalarView::CastExpr(cast) => {
            law_flatten_scalar_unchanged(columns, derived, correlated, *cast.argument);
        },
        _ => {},
    }
}

proof fn lemma_flatten_scalars_unchanged(
    columns: Seq<ColumnEntryView>,
    derived: Seq<(usize, usize)>,
    correlated: Seq<usize>,
    scalars: Seq<ScalarView>,
)
    requires
        !touches(used_by_all(scalars), correlated),
    ensures
        flatten_scalars(columns, derived, correlated, scalars) matches Outcome::Done(flat) ==> flat
            == scalars,
        !(flatten_scalars(columns, derived, correlated, scalars) is Undefined),
    decreases scalars,
{
    if scalars.len() > 0 {
        let front = scalars.drop_last();
        assert(!touches(used_by_all(front), correlated)) by {
            if touches(used_by_all(front), correlated) {
                let c = choose|c: usize| #[trigger]
                    used_by_all(front).contains(c) && correlated.contains(c);
                assert(used_by_all(scalars).contains(c));
            }
        }
        assert(!touches(used_columns(scalars.last()), correlated)) by {
            if touches(used_columns(scalars.last()), correlated) {
                let c = choose|c: usize| #[trigger]
                    used_columns(scalars.last()).contains(c) && correlated.contains(c);
                assert(used_by_all(scalars).contains(c));
            }
        }
        lemma_flatten_scalars_unchanged(columns, derived, correlated, front);
        law_flatten_scalar_unchanged(columns, derived, correlated, scalars.last());
        assert(front.push(scalars.last()) =~= scalars);
    }
}

/// A flat plan gives every column that the plan gave.
pub proof fn law_flatten_keeps_output(
    state: FlattenState,
    correlated: Seq<usize>,
    plan: SExprView,
    need_cross_join: bool,
)
    requires
        flatten(state, correlated, plan, need_cross_join) is Done,
    ensures
        relational_prop(plan) is Ok,
        relational_prop(flat_plan(flatten(state, correlated, plan, need_cross_join))) is Ok,
        output_columns(plan).subset_of(
            output_columns(flat_plan(flatten(state, correlated, plan, need_cross_join))),
        ),
    decreases plan,
{
    let run = flatten(state, correlated, plan, need_cross_join);
    let flat = flat_plan(run);
    let prop = relational_prop(plan)->Ok_0;
    if prop.outer_columns == Set::<usize>::empty() {
        if need_cross_join {
            lemma_prop_of_binary(flat.plan, flat.children[0], flat.children[1]);
        }
    } else {
        match plan.plan {
            RelOperatorView::EvalScalar(items) => {
                let need = need_cross_join || touches(eval_used_columns(items), correlated);
                let below = flatten(state, correlated, plan.children[0], need);
                law_flatten_keeps_output(state, correlated, plan.children[0], need);
                let next = state_after(below);
                lemma_prop_of_unary(flat.plan, flat_plan(below));
                lemma_flatten_scalars_len(
                    next.columns,
                    next.derived,
                    correlated,
                    item_scalars(items),
                );
                lemma_item_columns(
                    items,
                    derived_items(next.columns, next.derived),
                    flatten_scalars(
                        next.columns,
                        next.derived,
                        correlated,
                        item_scalars(items),
                    )->Done_0,
                );
            },
            RelOperatorView::Filter(filter) => {
                let entered = enter_filter(state, correlated, filter.predicates, need_cross_join);
                let below = flatten(entered->Done_0, correlated, plan.children[0], entered->Done_1);
                law_flatten_keeps_output(
                    entered->Done_0,
                    correlated,
                    plan.children[0],
                    entered->Done_1,
                );
                lemma_prop_of_unary(flat.plan, flat_plan(below));
            },
            RelOperatorView::Join(join) => {
                let need = need_cross_join || touches(join_used_columns(join), correlated);
                lemma_flatten_children(state, correlated, plan, need, flat.plan);
                let left = flatten(state, correlated, plan.children[0], need);
                law_flatten_keeps_output(state, correlated, plan.children[0], need);
                let right = flatten(state_after(left), correlated, plan.children[1], need);
                law_flatten_keeps_output(state_after(left), correlated, plan.children[1], need);
                lemma_prop_of_binary(flat.plan, flat_plan(left), flat_plan(right));
            },
            RelOperatorView::Aggregate(aggregate) => {
                let need = need_cross_join || touches(
                    aggregate_used_columns(aggregate),
                    correlated,
                );
                let below = flatten(state, correlated, plan.children[0], need);
                law_flatten_keeps_output(state, correlated, plan.children[0], need);
                let next = state_after(below);
                lemma_prop_of_unary(flat.plan, flat_plan(below));
                lemma_flatten_scalars_len(
                    next.columns,
                    next.derived,
                    correlated,
                    item_scalars(aggregate.group_items),
                );
                lemma_item_columns(
                    aggregate.group_items,
                    derived_group_items(next.columns, next.derived),
                    flatten_scalars(
                        next.columns,
                        next.derived,
                        correlated,
                        item_scalars(aggregate.group_items),
                    )->Done_0,
                );
                lemma_flatten_aggregates_frame(next, correlated, aggregate.aggregate_functions);
                let functions = flatten_aggregates(
                    next,
                    correlated,
                    aggregate.aggregate_functions,
                )->Done_1;
                assert(functions.map_values(|item: ScalarItemView| item.index)
                    =~= aggregate.aggregate_functions.map_values(
                    |item: ScalarItemView| item.index,
                ));
            },
            RelOperatorView::Sort(_, _) => {
                law_flatten_keeps_output(state, correlated, plan.children[0], need_cross_join);
                lemma_prop_of_unary(flat.plan, flat.children[0]);
            },
            RelOperatorView::Limit(_) => {
                law_flatten_keeps_output(state, correlated, plan.children[0], need_cross_join);
                lemma_prop_of_unary(flat.plan, flat.children[0]);
            },
            RelOperatorView::UnionAll(pairs) => {
                let need = need_cross_join || touches(union_used_columns(pairs), correlated);
                lemma_flatten_children(state, correlated, plan, need, flat.plan);
                let left = flatten(state, correlated, plan.children[0], need);
                law_flatten_keeps_output(state, correlated, plan.children[0], need);
                let right = flatten(state_after(left), correlated, plan.children[1], need);
                law_flatten_keeps_output(state_after(left), correlated, plan.children[1], need);
                lemma_prop_of_binary(flat.plan, flat_plan(left), flat_plan(right));
            },
            RelOperatorView::Scan(_) => {},
            RelOperatorView::Opaque(_) => {},
        }
    }
}

} // verus!
