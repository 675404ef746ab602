//! What each operator of a plan becomes when the plan is flattened.

use vstd::prelude::*;

use crate::column_map::{bind, distinct_keys, law_lookup_after_bind, lookup, values_of};
use crate::column_set::touches;
use crate::laws::{
    flat_plan, law_flatten_scalar_unchanged, lemma_flatten_aggregates_frame, lemma_flatten_children,
    outer_columns, state_after,
};
use crate::metadata::{table_of, ColumnEntryView, ColumnSource};
use crate::model::{
    add_derived_columns, aggregate_used_columns, enter_filter, equate, equate_all,
    eval_used_columns, flatten, flatten_aggregates, flatten_child, flatten_items, flatten_scalar,
    flatten_scalars, flatten_under, Equated, FlattenState, Outcome, Run,
};
use crate::names::subquery_column_name;
use crate::plan::{
    item_scalars, join_used_columns, union_used_columns, AggregateMode, AggregateView, JoinType,
    JoinView, ScalarItemView,
};
use crate::s_expr::SExprView;
use crate::scalar::{
    used_by_all, used_columns, BoundColumnRefView, ColumnBindingView, ComparisonOp, ScalarView,
};
use crate::scalar_laws::{
    law_comparison_names, law_flatten_scalar_rewrites, law_used_by_all_is_used_by_one, rewritten,
};
use crate::types::{Span, Visibility};

verus! {

/// Whether `after` is what a scalar becomes: rewritten, and the same if it uses no correlated
/// column.
pub open spec fn carries_over(
    state: FlattenState,
    correlated: Seq<usize>,
    before: ScalarView,
    after: ScalarView,
) -> bool {
    &&& rewritten(state.columns, state.derived, correlated, before, after)
    &&& (forall|c: usize| #[trigger] correlated.contains(c) ==> !used_columns(before).contains(c))
        ==> after == before
}

/// A visible reference to a column, of the column's type, under a name.
pub open spec fn plain_reference(
    columns: Seq<ColumnEntryView>,
    span: Span,
    name: Seq<char>,
    index: usize,
) -> ScalarView {
    ScalarView::BoundColumnRef(
        BoundColumnRefView {
            span,
            column: ColumnBindingView {
                database_name: None,
                table_name: None,
                table_index: None,
                column_name: name,
                index,
                data_type: columns[index as int].data_type,
                visibility: Visibility::Visible,
            },
        },
    )
}

proof fn lemma_scalar_carries_over(
    state: FlattenState,
    correlated: Seq<usize>,
    scalar: ScalarView,
)
    ensures
        flatten_scalar(state.columns, state.derived, correlated, scalar) matches Outcome::Done(flat)
            ==> carries_over(state, correlated, scalar, flat),
{
    law_flatten_scalar_rewrites(state.columns, state.derived, correlated, scalar);
    if forall|c: usize| #[trigger] correlated.contains(c) ==> !used_columns(scalar).contains(c) {
        assert(!touches(used_columns(scalar), correlated));
        law_flatten_scalar_unchanged(state.columns, state.derived, correlated, scalar);
    }
}

proof fn lemma_scalars_carry_over(
    state: FlattenState,
    correlated: Seq<usize>,
    scalars: Seq<ScalarView>,
)
    ensures
        flatten_scalars(state.columns, state.derived, correlated, scalars) matches Outcome::Done(
            flat,
        ) ==> {
            &&& flat.len() == scalars.len()
            &&& forall|i: int|
                0 <= i < flat.len() ==> carries_over(
                    state,
                    correlated,
                    scalars[i],
                    #[trigger] flat[i],
                )
        },
    decreases scalars.len(),
{
    if scalars.len() > 0 {
        lemma_scalars_carry_over(state, correlated, scalars.drop_last());
        lemma_scalar_carries_over(state, correlated, scalars.last());
    }
}

/// Whether items are those of before, each at its place and for the same column, with the scalar
/// that its scalar becomes.
pub open spec fn items_carry_over(
    state: FlattenState,
    correlated: Seq<usize>,
    before: Seq<ScalarItemView>,
    after: Seq<ScalarItemView>,
) -> bool {
    &&& before.len() <= after.len()
    &&& forall|i: int|
        0 <= i < before.len() ==> {
            &&& (#[trigger] after[i]).index == before[i].index
            &&& carries_over(state, correlated, before[i].scalar, after[i].scalar)
        }
}

proof fn lemma_items_carry_over(
    state: FlattenState,
    correlated: Seq<usize>,
    items: Seq<ScalarItemView>,
)
    ensures
        flatten_items(state.columns, state.derived, correlated, items) matches Outcome::Done(flat)
            ==> flat.len() == items.len() && items_carry_over(state, correlated, items, flat),
{
    lemma_scalars_carry_over(state, correlated, item_scalars(items));
}

proof fn lemma_aggregates_carry_over(
    state: FlattenState,
    correlated: Seq<usize>,
    items: Seq<ScalarItemView>,
)
    ensures
        flatten_aggregates(state, correlated, items) matches Run::Done(_, flat) ==> flat.len()
            == items.len() && items_carry_over(state, correlated, items, flat),
    decreases items.len(),
{
    if items.len() > 0 {
        lemma_aggregates_carry_over(state, correlated, items.drop_last());
        lemma_flatten_aggregates_frame(state, correlated, items.drop_last());
        lemma_scalar_carries_over(state, correlated, items.last().scalar);
    }
}

/// A set and a list of columns touch exactly if they are not disjoint.
pub proof fn law_touches(columns: Set<usize>, list: Seq<usize>)
    ensures
        touches(columns, list) <==> !columns.disjoint(list.to_set()),
{
    if touches(columns, list) {
        let c = choose|c: usize| #[trigger] columns.contains(c) && list.contains(c);
        assert(list.to_set().contains(c));
    }
}

/// Whether items name a column: as the column of a value, or in a scalar.
pub open spec fn items_name(items: Seq<ScalarItemView>, column: usize) -> bool {
    exists|i: int|
        0 <= i < items.len() && ((#[trigger] items[i]).index == column || used_columns(
            items[i].scalar,
        ).contains(column))
}

/// Whether items name a correlated column.
pub open spec fn items_name_one(items: Seq<ScalarItemView>, correlated: Seq<usize>) -> bool {
    exists|c: usize| #[trigger] correlated.contains(c) && items_name(items, c)
}

proof fn lemma_eval_used_columns(items: Seq<ScalarItemView>, column: usize)
    ensures
        eval_used_columns(items).contains(column) <==> items_name(items, column),
{
    let scalars = item_scalars(items);
    let indexes = items.map_values(|item: ScalarItemView| item.index);
    law_used_by_all_is_used_by_one(scalars, column);
    if indexes.to_set().contains(column) {
        let i = choose|i: int| 0 <= i < indexes.len() && indexes[i] == column;
        assert(items[i].index == column);
    }
    if used_by_all(scalars).contains(column) {
        let i = choose|i: int|
            0 <= i < scalars.len() && used_columns(#[trigger] scalars[i]).contains(column);
        assert(used_columns(items[i].scalar).contains(column));
    }
    if items_name(items, column) {
        let i = choose|i: int|
            0 <= i < items.len() && ((#[trigger] items[i]).index == column || used_columns(
                items[i].scalar,
            ).contains(column));
        if items[i].index == column {
            assert(indexes[i] == column);
        } else {
            assert(used_columns(scalars[i]).contains(column));
        }
    }
}

pub proof fn lemma_items_touch(items: Seq<ScalarItemView>, correlated: Seq<usize>)
    ensures
        touches(eval_used_columns(items), correlated) <==> items_name_one(items, correlated),
{
    if touches(eval_used_columns(items), correlated) {
        let c = choose|c: usize| #[trigger]
            eval_used_columns(items).contains(c) && correlated.contains(c);
        lemma_eval_used_columns(items, c);
    }
    if items_name_one(items, correlated) {
        let c = choose|c: usize| #[trigger] correlated.contains(c) && items_name(items, c);
        lemma_eval_used_columns(items, c);
        assert(eval_used_columns(items).contains(c));
    }
}

pub proof fn lemma_aggregate_touches(aggregate: AggregateView, correlated: Seq<usize>)
    ensures
        touches(aggregate_used_columns(aggregate), correlated) <==> items_name_one(
            aggregate.group_items,
            correlated,
        ) || items_name_one(aggregate.aggregate_functions, correlated),
{
    let used = aggregate_used_columns(aggregate);
    let groups = eval_used_columns(aggregate.group_items);
    let functions = eval_used_columns(aggregate.aggregate_functions);
    lemma_items_touch(aggregate.group_items, correlated);
    lemma_items_touch(aggregate.aggregate_functions, correlated);
    if touches(used, correlated) {
        let c = choose|c: usize| #[trigger] used.contains(c) && correlated.contains(c);
        assert(groups.contains(c) || functions.contains(c));
    }
    if touches(groups, correlated) {
        let c = choose|c: usize| #[trigger] groups.contains(c) && correlated.contains(c);
        assert(used.contains(c));
    }
    if touches(functions, correlated) {
        let c = choose|c: usize| #[trigger] functions.contains(c) && correlated.contains(c);
        assert(used.contains(c));
    }
}

/// Over an operator that computes columns: every item stays at its place, for the same column, with
/// the scalar that its scalar becomes; behind the items each derived column is passed on under its
/// own name. The input is flattened, with the correlated columns needed if they were needed above
/// or an item names one.
pub proof fn law_flat_eval_scalar(
    state: FlattenState,
    correlated: Seq<usize>,
    plan: SExprView,
    need_cross_join: bool,
)
    requires
        flatten(state, correlated, plan, need_cross_join) is Done,
        outer_columns(plan) != Set::<usize>::empty(),
        plan.plan is EvalScalar,
    ensures
        ({
            let items = plan.plan->EvalScalar_0;
            let next = flatten(state, correlated, plan, need_cross_join)->Done_0;
            let flat = flatten(state, correlated, plan, need_cross_join)->Done_1;
            let after = flat.plan->EvalScalar_0;
            &&& flat.plan is EvalScalar
            &&& flat.children.len() == 1
            &&& items_carry_over(next, correlated, items, after)
            &&& after.len() == items.len() + next.derived.len()
            &&& forall|j: int|
                0 <= j < next.derived.len() ==> {
                    let v = (#[trigger] next.derived[j]).1;
                    &&& v < next.columns.len()
                    &&& after[items.len() + j] == (ScalarItemView {
                        scalar: plain_reference(
                            next.columns,
                            None,
                            next.columns[v as int].name,
                            v,
                        ),
                        index: v,
                    })
                }
            &&& plan.children.len() > 0
            &&& flatten(
                state,
                correlated,
                plan.children[0],
                need_cross_join || items_name_one(items, correlated),
            ) == Run::Done(next, flat.children[0])
        }),
{
    let items = plan.plan->EvalScalar_0;
    let need = need_cross_join || touches(eval_used_columns(items), correlated);
    lemma_items_touch(items, correlated);
    let below = flatten_child(state, correlated, plan, 0, need);
    assert(below is Done);
    let next = below->Done_0;
    lemma_items_carry_over(next, correlated, items);
    assert forall|j: int| 0 <= j < next.derived.len() implies (#[trigger] next.derived[j]).1
        < next.columns.len() by {
        assert(values_of(next.derived)[j] < next.columns.len());
    }
}

/// Over an aggregation: every group item and every aggregate function stays at its place, for the
/// same column, with the scalar that its scalar becomes; behind the group items there is one for
/// each derived column, under the name of a subquery's column. Nothing else of the aggregation
/// changes but its stage, which is the first.
pub proof fn law_flat_aggregate(
    state: FlattenState,
    correlated: Seq<usize>,
    plan: SExprView,
    need_cross_join: bool,
)
    requires
        flatten(state, correlated, plan, need_cross_join) is Done,
        outer_columns(plan) != Set::<usize>::empty(),
        plan.plan is Aggregate,
    ensures
        ({
            let before = plan.plan->Aggregate_0;
            let next = flatten(state, correlated, plan, need_cross_join)->Done_0;
            let flat = flatten(state, correlated, plan, need_cross_join)->Done_1;
            let after = flat.plan->Aggregate_0;
            let count = before.group_items.len();
            &&& flat.plan is Aggregate
            &&& flat.children.len() == 1
            &&& after.mode == AggregateMode::Initial
            &&& after.from_distinct == before.from_distinct
            &&& after.limit == before.limit
            &&& after.grouping_id_index == before.grouping_id_index
            &&& after.grouping_sets == before.grouping_sets
            &&& items_carry_over(next, correlated, before.group_items, after.group_items)
            &&& after.group_items.len() == count + next.derived.len()
            &&& forall|j: int|
                0 <= j < next.derived.len() ==> {
                    let v = (#[trigger] next.derived[j]).1;
                    &&& v < next.columns.len()
                    &&& after.group_items[count + j] == (ScalarItemView {
                        scalar: plain_reference(next.columns, None, subquery_column_name(v), v),
                        index: v,
                    })
                }
            &&& items_carry_over(
                next,
                correlated,
                before.aggregate_functions,
                after.aggregate_functions,
            )
            &&& after.aggregate_functions.len() == before.aggregate_functions.len()
            &&& plan.children.len() > 0
            &&& flatten(
                state,
                correlated,
                plan.children[0],
                need_cross_join || items_name_one(before.group_items, correlated)
                    || items_name_one(before.aggregate_functions, correlated),
            ) matches Run::Done(below, child) && below.columns == next.columns && below.derived
                == next.derived && child == flat.children[0]
        }),
{
    let aggregate = plan.plan->Aggregate_0;
    let need = need_cross_join || touches(aggregate_used_columns(aggregate), correlated);
    lemma_aggregate_touches(aggregate, correlated);
    let below = flatten_child(state, correlated, plan, 0, need);
    assert(below is Done);
    let inner = below->Done_0;
    let flat = flatten(state, correlated, plan, need_cross_join)->Done_1;
    let next = flatten(state, correlated, plan, need_cross_join)->Done_0;
    lemma_items_carry_over(inner, correlated, aggregate.group_items);
    lemma_aggregates_carry_over(inner, correlated, aggregate.aggregate_functions);
    lemma_flatten_aggregates_frame(inner, correlated, aggregate.aggregate_functions);
    assert forall|j: int| 0 <= j < next.derived.len() implies (#[trigger] next.derived[j]).1
        < next.columns.len() by {
        assert(values_of(inner.derived)[j] < inner.columns.len());
    }
    let after = flat.plan->Aggregate_0;
    assert(items_carry_over(next, correlated, aggregate.group_items, after.group_items)) by {
        assert forall|i: int| 0 <= i < aggregate.group_items.len() implies {
            &&& (#[trigger] after.group_items[i]).index == aggregate.group_items[i].index
            &&& carries_over(
                next,
                correlated,
                aggregate.group_items[i].scalar,
                after.group_items[i].scalar,
            )
        } by {
            let groups = flatten_items(
                inner.columns,
                inner.derived,
                correlated,
                aggregate.group_items,
            )->Done_0;
            assert(after.group_items[i] == groups[i]);
        }
    }
    assert(flatten(
        state,
        correlated,
        plan.children[0],
        need_cross_join || items_name_one(aggregate.group_items, correlated) || items_name_one(
            aggregate.aggregate_functions,
            correlated,
        ),
    ) == Run::Done(inner, flat.children[0]));
}

/// Whether one of the conditions uses a correlated column.
pub open spec fn conditions_use_one(conditions: Seq<ScalarView>, correlated: Seq<usize>) -> bool {
    exists|i: int, c: usize|
        0 <= i < conditions.len() && #[trigger] correlated.contains(c) && used_columns(
            #[trigger] conditions[i],
        ).contains(c)
}

proof fn lemma_conditions_touch(conditions: Seq<ScalarView>, correlated: Seq<usize>)
    ensures
        touches(used_by_all(conditions), correlated) <==> conditions_use_one(
            conditions,
            correlated,
        ),
{
    if touches(used_by_all(conditions), correlated) {
        let c = choose|c: usize| #[trigger]
            used_by_all(conditions).contains(c) && correlated.contains(c);
        law_used_by_all_is_used_by_one(conditions, c);
    }
    if conditions_use_one(conditions, correlated) {
        let (i, c) = choose|i: int, c: usize|
            0 <= i < conditions.len() && #[trigger] correlated.contains(c) && used_columns(
                #[trigger] conditions[i],
            ).contains(c);
        law_used_by_all_is_used_by_one(conditions, c);
        assert(used_by_all(conditions).contains(c));
    }
}

pub proof fn lemma_join_touches(join: JoinView, correlated: Seq<usize>)
    ensures
        touches(join_used_columns(join), correlated) <==> conditions_use_one(
            join.left_conditions,
            correlated,
        ) || conditions_use_one(join.right_conditions, correlated) || conditions_use_one(
            join.non_equi_conditions,
            correlated,
        ),
{
    let used = join_used_columns(join);
    let left = used_by_all(join.left_conditions);
    let right = used_by_all(join.right_conditions);
    let other = used_by_all(join.non_equi_conditions);
    lemma_conditions_touch(join.left_conditions, correlated);
    lemma_conditions_touch(join.right_conditions, correlated);
    lemma_conditions_touch(join.non_equi_conditions, correlated);
    if touches(used, correlated) {
        let c = choose|c: usize| #[trigger] used.contains(c) && correlated.contains(c);
        assert(left.contains(c) || right.contains(c) || other.contains(c));
    }
    if touches(left, correlated) {
        let c = choose|c: usize| #[trigger] left.contains(c) && correlated.contains(c);
        assert(used.contains(c));
    }
    if touches(right, correlated) {
        let c = choose|c: usize| #[trigger] right.contains(c) && correlated.contains(c);
        assert(used.contains(c));
    }
    if touches(other, correlated) {
        let c = choose|c: usize| #[trigger] other.contains(c) && correlated.contains(c);
        assert(used.contains(c));
    }
}

/// Whether both inputs of a plan were flattened one after the other, left to right, from `state` to
/// `next`, and are the inputs of `flat`.
pub open spec fn both_flattened(
    state: FlattenState,
    correlated: Seq<usize>,
    plan: SExprView,
    need_cross_join: bool,
    next: FlattenState,
    flat: SExprView,
) -> bool {
    &&& plan.children.len() >= 2
    &&& flat.children.len() == 2
    &&& exists|mid: FlattenState|
        {
            &&& flatten(state, correlated, plan.children[0], need_cross_join) == Run::Done(
                mid,
                flat.children[0],
            )
            &&& #[trigger] flatten(mid, correlated, plan.children[1], need_cross_join) == Run::Done(
                next,
                flat.children[1],
            )
        }
}

/// Over a join: its kind, its conditions and its mark stay, and both inputs are flattened, with the
/// correlated columns needed if they were needed above or a condition uses one.
pub proof fn law_flat_join(
    state: FlattenState,
    correlated: Seq<usize>,
    plan: SExprView,
    need_cross_join: bool,
)
    requires
        flatten(state, correlated, plan, need_cross_join) is Done,
        outer_columns(plan) != Set::<usize>::empty(),
        plan.plan is Join,
    ensures
        ({
            let before = plan.plan->Join_0;
            let next = flatten(state, correlated, plan, need_cross_join)->Done_0;
            let flat = flatten(state, correlated, plan, need_cross_join)->Done_1;
            let after = flat.plan->Join_0;
            &&& flat.plan is Join
            &&& after.join_type == before.join_type
            &&& after.left_conditions == before.left_conditions
            &&& after.right_conditions == before.right_conditions
            &&& after.non_equi_conditions == before.non_equi_conditions
            &&& after.marker_index == before.marker_index
            &&& !after.from_correlated_subquery
            &&& !after.contain_runtime_filter
            &&& both_flattened(
                state,
                correlated,
                plan,
                need_cross_join || conditions_use_one(before.left_conditions, correlated)
                    || conditions_use_one(before.right_conditions, correlated)
                    || conditions_use_one(before.non_equi_conditions, correlated),
                next,
                flat,
            )
        }),
{
    let join = plan.plan->Join_0;
    let flat = flat_plan(flatten(state, correlated, plan, need_cross_join));
    let need = need_cross_join || touches(join_used_columns(join), correlated);
    lemma_join_touches(join, correlated);
    lemma_flatten_children(state, correlated, plan, need, flat.plan);
    let mid = state_after(flatten(state, correlated, plan.children[0], need));
    assert(flatten(mid, correlated, plan.children[1], need) is Done);
}

/// Over a union: it stays, and both inputs are flattened, with the correlated columns needed if they
/// were needed above or a pair names one.
pub proof fn law_flat_union(
    state: FlattenState,
    correlated: Seq<usize>,
    plan: SExprView,
    need_cross_join: bool,
)
    requires
        flatten(state, correlated, plan, need_cross_join) is Done,
        outer_columns(plan) != Set::<usize>::empty(),
        plan.plan is UnionAll,
    ensures
        ({
            let pairs = plan.plan->UnionAll_0;
            let next = flatten(state, correlated, plan, need_cross_join)->Done_0;
            let flat = flatten(state, correlated, plan, need_cross_join)->Done_1;
            &&& flat.plan == plan.plan
            &&& both_flattened(
                state,
                correlated,
                plan,
                need_cross_join || exists|i: int|
                    0 <= i < pairs.len() && (correlated.contains((#[trigger] pairs[i]).0)
                        || correlated.contains(pairs[i].1)),
                next,
                flat,
            )
        }),
{
    let pairs = plan.plan->UnionAll_0;
    let flat = flat_plan(flatten(state, correlated, plan, need_cross_join));
    let used = union_used_columns(pairs);
    let firsts = pairs.map_values(|pair: (usize, usize)| pair.0);
    let seconds = pairs.map_values(|pair: (usize, usize)| pair.1);
    let need = need_cross_join || touches(used, correlated);
    if touches(used, correlated) {
        let c = choose|c: usize| #[trigger] used.contains(c) && correlated.contains(c);
        if firsts.to_set().contains(c) {
            let i = choose|i: int| 0 <= i < firsts.len() && firsts[i] == c;
            assert(correlated.contains(pairs[i].0));
        } else {
            assert(seconds.to_set().contains(c));
            let i = choose|i: int| 0 <= i < seconds.len() && seconds[i] == c;
            assert(correlated.contains(pairs[i].1));
        }
    }
    if exists|i: int|
        0 <= i < pairs.len() && (correlated.contains((#[trigger] pairs[i]).0)
            || correlated.contains(pairs[i].1)) {
        let i = choose|i: int|
            0 <= i < pairs.len() && (correlated.contains((#[trigger] pairs[i]).0)
                || correlated.contains(pairs[i].1));
        assert(firsts[i] == pairs[i].0);
        assert(seconds[i] == pairs[i].1);
        assert(used.contains(pairs[i].0));
        assert(used.contains(pairs[i].1));
    }
    lemma_flatten_children(state, correlated, plan, need, flat.plan);
    let mid = state_after(flatten(state, correlated, plan.children[0], need));
    assert(flatten(mid, correlated, plan.children[1], need) is Done);
}

/// Over a sort or a limit: it stays, over the flat input.
pub proof fn law_flat_sort_or_limit(
    state: FlattenState,
    correlated: Seq<usize>,
    plan: SExprView,
    need_cross_join: bool,
)
    requires
        outer_columns(plan) != Set::<usize>::empty(),
        plan.plan is Sort || plan.plan is Limit,
        plan.children.len() > 0,
    ensures
        match flatten(state, correlated, plan.children[0], need_cross_join) {
            Run::Done(next, child) => flatten(state, correlated, plan, need_cross_join)
                == Run::Done(next, (SExprView { plan: plan.plan, children: seq![child] })),
            other => flatten(state, correlated, plan, need_cross_join) == other,
        },
{
    let below = flatten_child(state, correlated, plan, 0, need_cross_join);
    assert(below == flatten(state, correlated, plan.children[0], need_cross_join));
    assert(flatten(state, correlated, plan, need_cross_join) == flatten_under(
        state,
        correlated,
        plan,
        need_cross_join,
        plan.plan,
    ));
}

/// Whether a predicate is a call of the equality function on two columns in front.
pub open spec fn is_column_equation(predicate: ScalarView) -> bool {
    predicate matches ScalarView::FunctionCall(func) && func.func_name == seq!['e', 'q']
        && func.arguments.len() >= 2 && func.arguments[0] is BoundColumnRef
        && func.arguments[1] is BoundColumnRef
}

/// Whether a predicate equates a correlated column `key` with a column `value` that is not.
pub open spec fn pairs(
    predicate: ScalarView,
    correlated: Seq<usize>,
    key: usize,
    value: usize,
) -> bool {
    &&& is_column_equation(predicate)
    &&& correlated.contains(key)
    &&& !correlated.contains(value)
    &&& {
        let arguments = predicate->FunctionCall_0.arguments;
        let left = arguments[0]->BoundColumnRef_0.column.index;
        let right = arguments[1]->BoundColumnRef_0.column.index;
        left == key && right == value || left == value && right == key
    }
}

/// Whether the predicate at `i` equates `key` with `value` and no later predicate equates `key`.
pub open spec fn pairs_last(
    predicates: Seq<ScalarView>,
    correlated: Seq<usize>,
    i: int,
    key: usize,
    value: usize,
) -> bool {
    &&& 0 <= i < predicates.len()
    &&& pairs(predicates[i], correlated, key, value)
    &&& forall|j: int, other: usize|
        i < j < predicates.len() ==> !#[trigger] pairs(predicates[j], correlated, key, other)
}

/// Whether no predicate equates `key` with a column that is not correlated.
pub open spec fn unpaired(predicates: Seq<ScalarView>, correlated: Seq<usize>, key: usize) -> bool {
    forall|j: int, other: usize|
        0 <= j < predicates.len() ==> !#[trigger] pairs(predicates[j], correlated, key, other)
}

/// Whether `after` are the derived columns once the equations were looked at: the derived column of
/// a correlated column is the one that the last equation pairs with it, if there is one.
pub open spec fn paired_by(
    before: Seq<(usize, usize)>,
    after: Seq<(usize, usize)>,
    correlated: Seq<usize>,
    predicates: Seq<ScalarView>,
) -> bool {
    &&& forall|i: int, key: usize, value: usize| #[trigger]
        pairs_last(predicates, correlated, i, key, value) ==> lookup(after, key) == Some(value)
    &&& forall|key: usize| #[trigger]
        unpaired(predicates, correlated, key) ==> lookup(after, key) == lookup(before, key)
    &&& distinct_keys(before) ==> distinct_keys(after)
}

pub proof fn lemma_bind_distinct(entries: Seq<(usize, usize)>, key: usize, value: usize)
    requires
        distinct_keys(entries),
    ensures
        distinct_keys(bind(entries, key, value)),
{
    let after = bind(entries, key, value);
    assert forall|a: int, b: int| 0 <= a < b < after.len() implies (#[trigger] after[a]).0 != (
    #[trigger] after[b]).0 by {
        if b < entries.len() {
            assert(entries[a].0 != entries[b].0);
        } else {
            assert(entries[a].0 != key);
        }
    }
}

proof fn lemma_equate_pairs(
    derived: Seq<(usize, usize)>,
    correlated: Seq<usize>,
    predicate: ScalarView,
    key: usize,
)
    ensures
        equate(derived, correlated, predicate) matches Equated::All(after) ==> {
            &&& forall|value: usize| #[trigger]
                pairs(predicate, correlated, key, value) ==> lookup(after, key) == Some(value)
            &&& (forall|value: usize| !#[trigger] pairs(predicate, correlated, key, value))
                ==> lookup(after, key) == lookup(derived, key)
            &&& distinct_keys(derived) ==> distinct_keys(after)
        },
{
    law_comparison_names(seq!['e', 'q'], ComparisonOp::Equal);
    if equate(derived, correlated, predicate) is All {
        if is_column_equation(predicate) {
            let func = predicate->FunctionCall_0;
            let left = func.arguments[0]->BoundColumnRef_0.column.index;
            let right = func.arguments[1]->BoundColumnRef_0.column.index;
            law_used_by_all_is_used_by_one(func.arguments, left);
            law_used_by_all_is_used_by_one(func.arguments, right);
            assert(used_columns(func.arguments[0]).contains(left));
            assert(used_columns(func.arguments[1]).contains(right));
            assert(used_columns(predicate).contains(left));
            assert(used_columns(predicate).contains(right));
            law_lookup_after_bind(derived, left, right, key);
            law_lookup_after_bind(derived, right, left, key);
            if distinct_keys(derived) {
                lemma_bind_distinct(derived, left, right);
                lemma_bind_distinct(derived, right, left);
            }
            if key == left && correlated.contains(left) && !correlated.contains(right) {
                assert(pairs(predicate, correlated, key, right));
            }
            if key == right && correlated.contains(right) && !correlated.contains(left) {
                assert(pairs(predicate, correlated, key, left));
            }
        }
    }
}

/// The equations of a filter make the other side of an equation the derived column of a correlated
/// column; where there are several, the last decides, and every other column keeps what it had.
pub proof fn law_equations_pair(
    derived: Seq<(usize, usize)>,
    correlated: Seq<usize>,
    predicates: Seq<ScalarView>,
)
    ensures
        equate_all(derived, correlated, predicates) matches Equated::All(after) ==> paired_by(
            derived,
            after,
            correlated,
            predicates,
        ),
    decreases predicates.len(),
{
    if predicates.len() > 0 && equate_all(derived, correlated, predicates) is All {
        let front = predicates.drop_last();
        let last = predicates.last();
        law_equations_pair(derived, correlated, front);
        let next = equate_all(derived, correlated, front)->All_0;
        let after = equate_all(derived, correlated, predicates)->All_0;
        assert(predicates[predicates.len() - 1] == last);
        lemma_equate_pairs(next, correlated, last, 0);
        assert forall|i: int, key: usize, value: usize| #[trigger]
            pairs_last(predicates, correlated, i, key, value) implies lookup(after, key) == Some(
            value,
        ) by {
            lemma_equate_pairs(next, correlated, last, key);
            if i < front.len() {
                assert forall|other: usize| !#[trigger] pairs(last, correlated, key, other) by {
                    assert(!pairs(predicates[predicates.len() - 1], correlated, key, other));
                }
                assert forall|j: int, other: usize| i < j < front.len() implies !#[trigger] pairs(
                    front[j],
                    correlated,
                    key,
                    other,
                ) by {
                    assert(!pairs(predicates[j], correlated, key, other));
                }
                assert(pairs_last(front, correlated, i, key, value));
            }
        }
        assert forall|key: usize| #[trigger] unpaired(predicates, correlated, key) implies lookup(
            after,
            key,
        ) == lookup(derived, key) by {
            lemma_equate_pairs(next, correlated, last, key);
            assert forall|other: usize| !#[trigger] pairs(last, correlated, key, other) by {
                assert(!pairs(predicates[predicates.len() - 1], correlated, key, other));
            }
            assert forall|j: int, other: usize| 0 <= j < front.len() implies !#[trigger] pairs(
                front[j],
                correlated,
                key,
                other,
            ) by {
                assert(!pairs(predicates[j], correlated, key, other));
            }
            assert(unpaired(front, correlated, key));
        }
    }
}

/// Whether a predicate uses a correlated column otherwise than by equating two columns.
pub open spec fn needs_correlated(predicate: ScalarView, correlated: Seq<usize>) -> bool {
    &&& !is_column_equation(predicate)
    &&& exists|c: usize| #[trigger]
        correlated.contains(c) && used_columns(predicate).contains(c)
}

/// Whether one of the predicates uses a correlated column otherwise than by equating two columns.
pub open spec fn some_need_correlated(predicates: Seq<ScalarView>, correlated: Seq<usize>) -> bool {
    exists|i: int|
        0 <= i < predicates.len() && needs_correlated(#[trigger] predicates[i], correlated)
}

pub proof fn lemma_equate_kind(
    derived: Seq<(usize, usize)>,
    correlated: Seq<usize>,
    predicates: Seq<ScalarView>,
)
    ensures
        equate_all(derived, correlated, predicates) is All ==> forall|i: int|
            0 <= i < predicates.len() ==> !needs_correlated(#[trigger] predicates[i], correlated),
        equate_all(derived, correlated, predicates) is NotAll ==> exists|i: int|
            0 <= i < predicates.len() && needs_correlated(#[trigger] predicates[i], correlated),
        equate_all(derived, correlated, predicates) is Undefined ==> exists|i: int|
            0 <= i < predicates.len() && lacks_side(#[trigger] predicates[i], correlated),
    decreases predicates.len(),
{
    law_comparison_names(seq!['e', 'q'], ComparisonOp::Equal);
    if predicates.len() > 0 {
        let front = predicates.drop_last();
        let last = predicates[predicates.len() - 1];
        lemma_equate_kind(derived, correlated, front);
        if touches(used_columns(last), correlated) {
            let c = choose|c: usize| #[trigger]
                used_columns(last).contains(c) && correlated.contains(c);
            assert(correlated.contains(c) && used_columns(last).contains(c));
        }
        match equate_all(derived, correlated, front) {
            Equated::All(next) => {
                assert forall|i: int| 0 <= i < front.len() implies !needs_correlated(
                    #[trigger] predicates[i],
                    correlated,
                ) by {
                    assert(front[i] == predicates[i]);
                }
                if !touches(used_columns(last), correlated) {
                    assert(!needs_correlated(last, correlated)) by {
                        if needs_correlated(last, correlated) {
                            let c = choose|c: usize| #[trigger]
                                correlated.contains(c) && used_columns(last).contains(c);
                            assert(used_columns(last).contains(c) && correlated.contains(c));
                        }
                    }
                }
            },
            Equated::NotAll(_) => {
                let i = choose|i: int|
                    0 <= i < front.len() && needs_correlated(#[trigger] front[i], correlated);
                assert(predicates[i] == front[i]);
            },
            Equated::Undefined => {
                let i = choose|i: int|
                    0 <= i < front.len() && lacks_side(#[trigger] front[i], correlated);
                assert(predicates[i] == front[i]);
            },
        }
    }
}

/// Whether a predicate is a call of the equality function with a correlated column in it and a side
/// missing.
pub open spec fn lacks_side(predicate: ScalarView, correlated: Seq<usize>) -> bool {
    &&& predicate matches ScalarView::FunctionCall(func) && func.func_name == seq!['e', 'q']
        && func.arguments.len() < 2
    &&& exists|c: usize| #[trigger]
        correlated.contains(c) && used_columns(predicate).contains(c)
}

/// Whether `inner` is the state with which flattening goes on beneath a filter: the same if the
/// correlated columns were needed above it; without derived columns if a predicate needs them; and
/// otherwise with the derived columns that the equations pair.
pub open spec fn entered_with(
    state: FlattenState,
    inner: FlattenState,
    correlated: Seq<usize>,
    predicates: Seq<ScalarView>,
    need_cross_join: bool,
) -> bool {
    &&& inner.columns == state.columns
    &&& inner.from_count_func == state.from_count_func
    &&& if need_cross_join {
        inner.derived == state.derived
    } else if some_need_correlated(predicates, correlated) {
        inner.derived.len() == 0
    } else {
        paired_by(state.derived, inner.derived, correlated, predicates)
    }
}

/// Over a filter: there are as many predicates as before, each at its place and with what it
/// becomes, and one that uses no correlated column is unchanged. The input is flattened; if the
/// correlated columns were not needed above, they are if a predicate needs them, with all derived
/// columns taken back, and otherwise the derived columns are those that the equations pair.
pub proof fn law_flat_filter(
    state: FlattenState,
    correlated: Seq<usize>,
    plan: SExprView,
    need_cross_join: bool,
)
    requires
        flatten(state, correlated, plan, need_cross_join) is Done,
        outer_columns(plan) != Set::<usize>::empty(),
        plan.plan is Filter,
    ensures
        ({
            let before = plan.plan->Filter_0;
            let next = flatten(state, correlated, plan, need_cross_join)->Done_0;
            let flat = flatten(state, correlated, plan, need_cross_join)->Done_1;
            let after = flat.plan->Filter_0;
            let needs = some_need_correlated(before.predicates, correlated);
            let needed = need_cross_join || needs;
            &&& flat.plan is Filter
            &&& flat.children.len() == 1
            &&& after.is_having == before.is_having
            &&& after.predicates.len() == before.predicates.len()
            &&& forall|i: int|
                0 <= i < after.predicates.len() ==> carries_over(
                    next,
                    correlated,
                    before.predicates[i],
                    #[trigger] after.predicates[i],
                )
            &&& plan.children.len() > 0
            &&& exists|inner: FlattenState|
                {
                    &&& #[trigger] entered_with(
                        state,
                        inner,
                        correlated,
                        before.predicates,
                        need_cross_join,
                    )
                    &&& flatten(inner, correlated, plan.children[0], needed) == Run::Done(
                        next,
                        flat.children[0],
                    )
                }
        }),
{
    let filter = plan.plan->Filter_0;
    let run = flatten(state, correlated, plan, need_cross_join);
    let entered = enter_filter(state, correlated, filter.predicates, need_cross_join);
    let inner = entered->Done_0;
    let need = entered->Done_1;
    let below = flatten_child(inner, correlated, plan, 0, need);
    assert(below is Done);
    lemma_equate_kind(state.derived, correlated, filter.predicates);
    law_equations_pair(state.derived, correlated, filter.predicates);
    lemma_scalars_carry_over(run->Done_0, correlated, filter.predicates);
    let needs = some_need_correlated(filter.predicates, correlated);
    let needed = need_cross_join || needs;
    assert(need == needed);
    assert(entered_with(state, inner, correlated, filter.predicates, need_cross_join));
    let after = run->Done_1.plan->Filter_0;
    assert(run->Done_0 == below->Done_0);
    assert(after.predicates.len() == filter.predicates.len());
    assert forall|i: int| 0 <= i < after.predicates.len() implies carries_over(
        run->Done_0,
        correlated,
        filter.predicates[i],
        #[trigger] after.predicates[i],
    ) by {}
    assert(flatten(inner, correlated, plan.children[0], needed) == Run::Done(
        run->Done_0,
        run->Done_1.children[0],
    ));
}

/// Each correlated column gets a column of its own behind the columns of the query, in the order of
/// the correlated columns, computed, under its name and of its type. No other derived column
/// changes.
proof fn lemma_add_derived_exact(
    columns: Seq<ColumnEntryView>,
    derived: Seq<(usize, usize)>,
    correlated: Seq<usize>,
)
    requires
        correlated.no_duplicates(),
    ensures
        add_derived_columns(columns, derived, correlated) matches Some((known, bound)) ==> {
            &&& known.len() == columns.len() + correlated.len()
            &&& columns.is_prefix_of(known)
            &&& known.len() <= usize::MAX ==> forall|i: int|
                0 <= i < correlated.len() ==> copies(
                    known,
                    bound,
                    #[trigger] correlated[i],
                    columns.len() + i,
                )
            &&& forall|k: usize|
                !correlated.contains(k) ==> #[trigger] lookup(bound, k) == lookup(derived, k)
            &&& distinct_keys(derived) ==> distinct_keys(bound)
        },
    decreases correlated.len(),
{
    if correlated.len() > 0 && add_derived_columns(columns, derived, correlated) is Some {
        let front = correlated.drop_last();
        let last = correlated.last();
        lemma_add_derived_exact(columns, derived, front);
        let (known, bound) = add_derived_columns(columns, derived, front)->0;
        let (after, binds) = add_derived_columns(columns, derived, correlated)->0;
        let fresh = known.len() as usize;
        if distinct_keys(derived) {
            lemma_bind_distinct(bound, last, fresh);
        }
        if after.len() <= usize::MAX {
            assert forall|i: int| 0 <= i < correlated.len() implies copies(
                after,
                binds,
                #[trigger] correlated[i],
                columns.len() + i,
            ) by {
                law_lookup_after_bind(bound, last, fresh, correlated[i]);
                if i < front.len() {
                    assert(front[i] == correlated[i]);
                    assert(copies(known, bound, front[i], columns.len() + i));
                    assert(correlated[i] != correlated[correlated.len() - 1]);
                }
            }
        }
        assert forall|k: usize| !correlated.contains(k) implies #[trigger] lookup(binds, k)
            == lookup(derived, k) by {
            law_lookup_after_bind(bound, last, fresh, k);
            assert(correlated[correlated.len() - 1] == last);
            if front.contains(k) {
                let j = choose|j: int| 0 <= j < front.len() && front[j] == k;
                assert(correlated[j] == k);
            }
        }
    }
}

/// Whether the column at `place` is the derived column of `column`: computed, under its name and of
/// its type.
pub open spec fn copies(
    columns: Seq<ColumnEntryView>,
    derived: Seq<(usize, usize)>,
    column: usize,
    place: int,
) -> bool {
    &&& lookup(derived, column) == Some(place as usize)
    &&& 0 <= place < columns.len()
    &&& column < columns.len()
    &&& columns[place].source is Derived
    &&& columns[place].column_index == place
    &&& columns[place].name == columns[column as int].name
    &&& columns[place].data_type == columns[column as int].data_type
}

/// A table is the one that columns are of exactly if the first table column among them is of it.
pub proof fn law_table_of(columns: Seq<ColumnEntryView>, wanted: Seq<usize>)
    ensures
        match table_of(columns, wanted) {
            Some(table) => exists|i: int|
                {
                    &&& 0 <= i < columns.len()
                    &&& (#[trigger] columns[i]).source == ColumnSource::BaseTable(table)
                    &&& wanted.contains(columns[i].column_index)
                    &&& forall|j: int|
                        0 <= j < i && (#[trigger] columns[j]).source is BaseTable
                            ==> !wanted.contains(columns[j].column_index)
                },
            None => forall|j: int|
                0 <= j < columns.len() && (#[trigger] columns[j]).source is BaseTable
                    ==> !wanted.contains(columns[j].column_index),
        },
    decreases columns.len(),
{
    if columns.len() > 0 {
        let front = columns.drop_last();
        law_table_of(front, wanted);
        match table_of(front, wanted) {
            Some(table) => {
                let i = choose|i: int|
                    {
                        &&& 0 <= i < front.len()
                        &&& (#[trigger] front[i]).source == ColumnSource::BaseTable(table)
                        &&& wanted.contains(front[i].column_index)
                        &&& forall|j: int|
                            0 <= j < i && (#[trigger] front[j]).source is BaseTable
                                ==> !wanted.contains(front[j].column_index)
                    };
                assert forall|j: int|
                    0 <= j < i && (#[trigger] columns[j]).source is BaseTable implies !wanted.contains(
                columns[j].column_index) by {
                    assert(front[j] == columns[j]);
                }
                assert(columns[i] == front[i]);
            },
            None => {
                assert forall|j: int|
                    0 <= j < front.len() && (
                    #[trigger] columns[j]).source is BaseTable implies !wanted.contains(
                columns[j].column_index) by {
                    assert(front[j] == columns[j]);
                }
                let last = columns[columns.len() - 1];
                assert(last == columns.last());
            },
        }
    }
}

/// Over a plan that takes nothing from around it, where the correlated columns are needed: a cross
/// join without conditions of the table of the correlated columns with the plan as it is. The table
/// gives the derived columns, and each correlated column has one of its own.
pub proof fn law_flat_cross_join(
    state: FlattenState,
    correlated: Seq<usize>,
    plan: SExprView,
)
    requires
        flatten(state, correlated, plan, true) is Done,
        outer_columns(plan) == Set::<usize>::empty(),
        correlated.no_duplicates(),
    ensures
        ({
            let next = flatten(state, correlated, plan, true)->Done_0;
            let flat = flatten(state, correlated, plan, true)->Done_1;
            let join = flat.plan->Join_0;
            let scan = flat.children[0].plan->Scan_0;
            &&& flat.plan is Join
            &&& join.join_type == JoinType::Cross
            &&& join.left_conditions.len() == 0
            &&& join.right_conditions.len() == 0
            &&& join.non_equi_conditions.len() == 0
            &&& join.marker_index is None
            &&& !join.from_correlated_subquery
            &&& !join.contain_runtime_filter
            &&& flat.children.len() == 2
            &&& flat.children[1] == plan
            &&& flat.children[0].plan is Scan
            &&& flat.children[0].children.len() == 0
            &&& Some(scan.table_index) == table_of(state.columns, correlated)
            &&& scan.limit is None
            &&& forall|v: usize| #[trigger]
                scan.columns.contains(v) <==> values_of(next.derived).contains(v)
            &&& next.from_count_func == state.from_count_func
            &&& next.columns.len() == state.columns.len() + correlated.len()
            &&& state.columns.is_prefix_of(next.columns)
            &&& next.columns.len() <= usize::MAX ==> forall|i: int|
                0 <= i < correlated.len() ==> copies(
                    next.columns,
                    next.derived,
                    #[trigger] correlated[i],
                    state.columns.len() + i,
                )
            &&& forall|k: usize|
                !correlated.contains(k) ==> #[trigger] lookup(next.derived, k) == lookup(
                    state.derived,
                    k,
                )
            &&& distinct_keys(state.derived) ==> distinct_keys(next.derived)
        }),
{
    lemma_add_derived_exact(state.columns, state.derived, correlated);
}

} // verus!
