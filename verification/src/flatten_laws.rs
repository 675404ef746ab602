//! What flattening does to a plan, to the columns of the query and to the derived columns.

use vstd::prelude::*;

use crate::column_map::{
    bind, has_key, law_lookup_after_bind, lemma_lookup_has_key, lookup, values_of,
};
use crate::column_set::touches;
use crate::join_predicate::func_name;
use crate::laws::{
    flat_plan, law_flatten_keeps_output, law_flatten_scalar_columns, lemma_flatten_aggregates_frame,
    lemma_flatten_children, lemma_flatten_scalars_len, lemma_item_columns, lemma_prop_of_binary,
    lemma_prop_of_unary, outer_columns, output_columns, state_after,
};
use crate::metadata::ColumnEntryView;
use crate::model::{
    add_derived_columns, aggregate_used_columns, all_known, counts, derived_group_items,
    derived_items, enter_filter, equate, equate_all, eval_used_columns, flatten, flatten_aggregate,
    flatten_aggregates, flatten_child, flatten_children, flatten_eval_scalar, flatten_items,
    flatten_scalar, flatten_scalars, flatten_under, Equated, FlattenState, Outcome, Run,
};
use crate::names::is_count_name;
use crate::plan::{
    item_columns, item_scalars, items_used_columns, join_used_columns, union_used_columns,
    AggregateView, JoinView, RelOperatorView, ScalarItemView,
};
use crate::property::{over_child, relational_prop};
use crate::s_expr::SExprView;
use crate::scalar::{used_by_all, used_columns, ComparisonOp, ScalarView};

verus! {

/// After `bind` there is an entry for the key besides the old ones, and the value is one of the
/// columns that the entries give.
pub proof fn lemma_bind_entries(entries: Seq<(usize, usize)>, key: usize, value: usize)
    ensures
        forall|k: usize| #[trigger]
            has_key(bind(entries, key, value), k) <==> has_key(entries, k) || k == key,
        forall|v: usize| #[trigger]
            values_of(bind(entries, key, value)).contains(v) ==> v == value || values_of(
                entries,
            ).contains(v),
{
    let after = bind(entries, key, value);
    assert forall|k: usize| #[trigger] has_key(after, k) <==> has_key(entries, k) || k == key by {
        if has_key(entries, k) {
            let i = choose|i: int| 0 <= i < entries.len() && (#[trigger] entries[i]).0 == k;
            assert(after[i].0 == k);
        }
        if has_key(after, k) {
            let i = choose|i: int| 0 <= i < after.len() && (#[trigger] after[i]).0 == k;
            if i < entries.len() {
                assert(entries[i].0 == k);
            }
        }
        if k == key && !has_key(entries, key) {
            assert(after[entries.len() as int].0 == key);
        }
    }
    assert forall|v: usize| #[trigger] values_of(after).contains(v) implies v == value
        || values_of(entries).contains(v) by {
        let i = choose|i: int| 0 <= i < values_of(after).len() && values_of(after)[i] == v;
        if v != value {
            assert(values_of(entries)[i] == v);
        }
    }
}

/// Whether `new` has the columns `old`, and behind them computed columns alone, each under the
/// name and of the type of a correlated column.
pub open spec fn grown(
    old: Seq<ColumnEntryView>,
    new: Seq<ColumnEntryView>,
    correlated: Seq<usize>,
) -> bool {
    &&& old.is_prefix_of(new)
    &&& forall|i: int| old.len() <= i < new.len() ==> is_copy(#[trigger] new[i], new, correlated)
}

/// Whether a column is computed and has the name and the type of a correlated column.
pub open spec fn is_copy(
    entry: ColumnEntryView,
    columns: Seq<ColumnEntryView>,
    correlated: Seq<usize>,
) -> bool {
    &&& entry.source is Derived
    &&& exists|c: usize| #[trigger]
        correlated.contains(c) && c < columns.len() && entry.name == columns[c as int].name
            && entry.data_type == columns[c as int].data_type
}

proof fn lemma_grown(
    first: Seq<ColumnEntryView>,
    second: Seq<ColumnEntryView>,
    third: Seq<ColumnEntryView>,
    correlated: Seq<usize>,
)
    requires
        grown(first, second, correlated),
        grown(second, third, correlated),
    ensures
        grown(first, third, correlated),
{
    assert forall|i: int| first.len() <= i < third.len() implies is_copy(
        #[trigger] third[i],
        third,
        correlated,
    ) by {
        if i < second.len() {
            assert(third[i] == second[i]);
            assert(is_copy(second[i], second, correlated));
            let c = choose|c: usize| #[trigger]
                correlated.contains(c) && c < second.len() && second[i].name
                    == second[c as int].name && second[i].data_type
                    == second[c as int].data_type;
            assert(third[c as int] == second[c as int]);
        }
    }
}

/// Each correlated column gets a derived column of its own behind the columns of the query.
pub proof fn lemma_add_derived_columns(
    columns: Seq<ColumnEntryView>,
    derived: Seq<(usize, usize)>,
    correlated: Seq<usize>,
)
    ensures
        all_known(columns, correlated) ==> add_derived_columns(columns, derived, correlated)
            is Some,
        add_derived_columns(columns, derived, correlated) matches Some((known, bound)) ==> {
            &&& grown(columns, known, correlated)
            &&& known.len() == columns.len() + correlated.len()
            &&& forall|k: usize| #[trigger]
                has_key(bound, k) <==> has_key(derived, k) || correlated.contains(k)
            &&& forall|v: usize| #[trigger]
                values_of(bound).contains(v) ==> {
                    ||| values_of(derived).contains(v)
                    ||| v < known.len() && (known.len() <= usize::MAX ==> columns.len() <= v)
                }
        },
    decreases correlated.len(),
{
    if correlated.len() > 0 {
        let front = correlated.drop_last();
        lemma_add_derived_columns(columns, derived, front);
        if all_known(columns, correlated) {
            assert forall|i: int| 0 <= i < front.len() implies #[trigger] front[i]
                < columns.len() by {
                assert(front[i] == correlated[i]);
            }
            assert(correlated[correlated.len() - 1] < columns.len());
        }
        match add_derived_columns(columns, derived, front) {
            Some((known, bound)) => {
                if correlated.last() < known.len() {
                    let (after, binds) = add_derived_columns(columns, derived, correlated)->0;
                    lemma_bind_entries(bound, correlated.last(), known.len() as usize);
                    assert forall|i: int| columns.len() <= i < after.len() implies is_copy(
                        #[trigger] after[i],
                        after,
                        correlated,
                    ) by {
                        if i < known.len() {
                            assert(is_copy(known[i], known, front));
                            let c = choose|c: usize| #[trigger]
                                front.contains(c) && c < known.len() && known[i].name
                                    == known[c as int].name && known[i].data_type
                                    == known[c as int].data_type;
                            let k = choose|k: int| 0 <= k < front.len() && front[k] == c;
                            assert(correlated[k] == c);
                            assert(correlated.contains(c));
                            assert(after[c as int] == known[c as int]);
                        } else {
                            let c = correlated.last();
                            assert(correlated[correlated.len() - 1] == c);
                            assert(correlated.contains(c));
                            assert(after[c as int] == known[c as int]);
                        }
                    }
                    assert forall|k: usize| #[trigger] has_key(binds, k) <==> has_key(derived, k)
                        || correlated.contains(k) by {
                        assert(correlated.contains(k) <==> front.contains(k) || k
                            == correlated.last()) by {
                            if front.contains(k) {
                                let j = choose|j: int| 0 <= j < front.len() && front[j] == k;
                                assert(correlated[j] == k);
                            }
                            if correlated.contains(k) && k != correlated.last() {
                                let j = choose|j: int|
                                    0 <= j < correlated.len() && correlated[j] == k;
                                assert(front[j] == k);
                            }
                            assert(correlated[correlated.len() - 1] == correlated.last());
                        }
                    }
                }
            },
            None => {},
        }
    }
}

/// A step takes no column of the query away and changes none. It adds computed columns, each under
/// the name and of the type of a correlated column.
pub proof fn law_flatten_adds_columns(
    state: FlattenState,
    correlated: Seq<usize>,
    plan: SExprView,
    need_cross_join: bool,
)
    ensures
        !(flatten(state, correlated, plan, need_cross_join) is Undefined) ==> grown(
            state.columns,
            state_after(flatten(state, correlated, plan, need_cross_join)).columns,
            correlated,
        ),
    decreases plan, 1nat,
{
    let run = flatten(state, correlated, plan, need_cross_join);
    if !(run is Undefined) && relational_prop(plan) is Ok {
        if outer_columns(plan) == Set::<usize>::empty() {
            lemma_add_derived_columns(state.columns, state.derived, correlated);
        } else if plan.children.len() > 0 {
            let child = plan.children[0];
            match plan.plan {
                RelOperatorView::EvalScalar(items) => {
                    let need = need_cross_join || touches(eval_used_columns(items), correlated);
                    let below = flatten_child(state, correlated, plan, 0, need);
                    assert(below == flatten(state, correlated, child, need));
                    law_flatten_adds_columns(state, correlated, child, need);
                },
                RelOperatorView::Filter(filter) => {
                    let entered = enter_filter(
                        state,
                        correlated,
                        filter.predicates,
                        need_cross_join,
                    );
                    let below = flatten_child(
                        entered->Done_0,
                        correlated,
                        plan,
                        0,
                        entered->Done_1,
                    );
                    assert(below == flatten(
                        entered->Done_0,
                        correlated,
                        child,
                        entered->Done_1,
                    ));
                    law_flatten_adds_columns(
                        entered->Done_0,
                        correlated,
                        child,
                        entered->Done_1,
                    );
                },
                RelOperatorView::Join(join) => {
                    let need = need_cross_join || touches(join_used_columns(join), correlated);
                    let operator = RelOperatorView::Join(
                        JoinView {
                            from_correlated_subquery: false,
                            contain_runtime_filter: false,
                            ..join
                        },
                    );
                    assert(run == flatten_children(state, correlated, plan, need, operator));
                    lemma_children_add_columns(state, correlated, plan, need, operator);
                },
                RelOperatorView::Aggregate(aggregate) => {
                    let need = need_cross_join || touches(
                        aggregate_used_columns(aggregate),
                        correlated,
                    );
                    let below = flatten_child(state, correlated, plan, 0, need);
                    assert(below == flatten(state, correlated, child, need));
                    law_flatten_adds_columns(state, correlated, child, need);
                    lemma_flatten_aggregates_frame(
                        state_after(below),
                        correlated,
                        aggregate.aggregate_functions,
                    );
                },
                RelOperatorView::Sort(_, _) => {
                    let below = flatten_child(state, correlated, plan, 0, need_cross_join);
                    assert(below == flatten(state, correlated, child, need_cross_join));
                    assert(run == flatten_under(
                        state,
                        correlated,
                        plan,
                        need_cross_join,
                        plan.plan,
                    ));
                    law_flatten_adds_columns(state, correlated, child, need_cross_join);
                },
                RelOperatorView::Limit(_) => {
                    let below = flatten_child(state, correlated, plan, 0, need_cross_join);
                    assert(below == flatten(state, correlated, child, need_cross_join));
                    assert(run == flatten_under(
                        state,
                        correlated,
                        plan,
                        need_cross_join,
                        plan.plan,
                    ));
                    law_flatten_adds_columns(state, correlated, child, need_cross_join);
                },
                RelOperatorView::UnionAll(pairs) => {
                    let need = need_cross_join || touches(union_used_columns(pairs), correlated);
                    assert(run == flatten_children(state, correlated, plan, need, plan.plan));
                    lemma_children_add_columns(state, correlated, plan, need, plan.plan);
                },
                RelOperatorView::Scan(_) => {},
                RelOperatorView::Opaque(_) => {},
            }
        }
    }
}

proof fn lemma_children_add_columns(
    state: FlattenState,
    correlated: Seq<usize>,
    plan: SExprView,
    need_cross_join: bool,
    operator: RelOperatorView,
)
    ensures
        !(flatten_children(state, correlated, plan, need_cross_join, operator) is Undefined)
            ==> grown(
            state.columns,
            state_after(
                flatten_children(state, correlated, plan, need_cross_join, operator),
            ).columns,
            correlated,
        ),
    decreases plan, 0nat,
{
    let first = flatten_child(state, correlated, plan, 0, need_cross_join);
    if plan.children.len() > 0 {
        law_flatten_adds_columns(state, correlated, plan.children[0], need_cross_join);
    }
    if first is Done {
        let next = first->Done_0;
        let second = flatten_child(next, correlated, plan, 1, need_cross_join);
        if plan.children.len() > 1 {
            law_flatten_adds_columns(next, correlated, plan.children[1], need_cross_join);
        }
        if !(second is Undefined) {
            lemma_grown(state.columns, next.columns, state_after(second).columns, correlated);
        }
    }
}

proof fn lemma_derived_items(columns: Seq<ColumnEntryView>, derived: Seq<(usize, usize)>)
    ensures
        item_columns(derived_items(columns, derived)) == values_of(derived).to_set(),
        item_columns(derived_group_items(columns, derived)) == values_of(derived).to_set(),
{
    assert(derived_items(columns, derived).map_values(|item: ScalarItemView| item.index)
        =~= values_of(derived));
    assert(derived_group_items(columns, derived).map_values(|item: ScalarItemView| item.index)
        =~= values_of(derived));
}

/// Over an input that gives the derived columns, the operator that computes columns gives them too.
proof fn lemma_eval_scalar_output(
    state: FlattenState,
    correlated: Seq<usize>,
    items: Seq<ScalarItemView>,
    child: SExprView,
)
    requires
        relational_prop(child) is Ok,
    ensures
        flatten_eval_scalar(state.columns, state.derived, correlated, items, child)
            matches Outcome::Done(flat) ==> {
            &&& relational_prop(flat) is Ok
            &&& output_columns(child).subset_of(output_columns(flat))
            &&& values_of(state.derived).to_set().subset_of(output_columns(flat))
        },
{
    if flatten_eval_scalar(state.columns, state.derived, correlated, items, child) is Done {
        let flat = flatten_eval_scalar(
            state.columns,
            state.derived,
            correlated,
            items,
            child,
        )->Done_0;
        lemma_prop_of_unary(flat.plan, child);
        lemma_derived_items(state.columns, state.derived);
        lemma_flatten_scalars_len(
            state.columns,
            state.derived,
            correlated,
            item_scalars(items),
        );
        lemma_item_columns(
            items,
            derived_items(state.columns, state.derived),
            flatten_scalars(
                state.columns,
                state.derived,
                correlated,
                item_scalars(items),
            )->Done_0,
        );
    }
}

/// A flat aggregation gives the derived columns.
proof fn lemma_aggregate_output(
    state: FlattenState,
    correlated: Seq<usize>,
    aggregate: AggregateView,
    child: SExprView,
)
    requires
        relational_prop(child) is Ok,
    ensures
        flatten_aggregate(state, correlated, aggregate, child) matches Run::Done(next, flat) ==> {
            &&& relational_prop(flat) is Ok
            &&& next.derived == state.derived
            &&& next.columns == state.columns
            &&& values_of(state.derived).to_set().subset_of(output_columns(flat))
        },
{
    if flatten_aggregate(state, correlated, aggregate, child) is Done {
        let flat = flatten_aggregate(state, correlated, aggregate, child)->Done_1;
        lemma_prop_of_unary(flat.plan, child);
        lemma_derived_items(state.columns, state.derived);
        lemma_flatten_scalars_len(
            state.columns,
            state.derived,
            correlated,
            item_scalars(aggregate.group_items),
        );
        lemma_item_columns(
            aggregate.group_items,
            derived_group_items(state.columns, state.derived),
            flatten_scalars(
                state.columns,
                state.derived,
                correlated,
                item_scalars(aggregate.group_items),
            )->Done_0,
        );
        lemma_flatten_aggregates_frame(state, correlated, aggregate.aggregate_functions);
    }
}

/// Where something above a plan needs the correlated columns, each of them has a derived column
/// once the plan is flat, and the flat plan gives the derived columns.
pub proof fn law_cross_join_gives_derived(
    state: FlattenState,
    correlated: Seq<usize>,
    plan: SExprView,
)
    requires
        flatten(state, correlated, plan, true) is Done,
    ensures
        forall|c: usize| #[trigger]
            correlated.contains(c) ==> has_key(
                state_after(flatten(state, correlated, plan, true)).derived,
                c,
            ),
        values_of(state_after(flatten(state, correlated, plan, true)).derived).to_set().subset_of(
            output_columns(flat_plan(flatten(state, correlated, plan, true))),
        ),
    decreases plan,
{
    let run = flatten(state, correlated, plan, true);
    let flat = flat_plan(run);
    if outer_columns(plan) == Set::<usize>::empty() {
        lemma_add_derived_columns(state.columns, state.derived, correlated);
        lemma_prop_of_binary(flat.plan, flat.children[0], flat.children[1]);
    } else {
        let child = plan.children[0];
        match plan.plan {
            RelOperatorView::EvalScalar(items) => {
                law_cross_join_gives_derived(state, correlated, child);
                let below = flatten(state, correlated, child, true);
                law_flatten_keeps_output(state, correlated, child, true);
                lemma_eval_scalar_output(
                    state_after(below),
                    correlated,
                    items,
                    flat_plan(below),
                );
            },
            RelOperatorView::Filter(filter) => {
                law_cross_join_gives_derived(state, correlated, child);
                law_flatten_keeps_output(state, correlated, child, true);
                lemma_prop_of_unary(flat.plan, flat.children[0]);
            },
            RelOperatorView::Join(join) => {
                lemma_flatten_children(state, correlated, plan, true, flat.plan);
                let left = flatten(state, correlated, child, true);
                law_flatten_keeps_output(state, correlated, child, true);
                law_flatten_keeps_output(
                    state_after(left),
                    correlated,
                    plan.children[1],
                    true,
                );
                law_cross_join_gives_derived(state_after(left), correlated, plan.children[1]);
                lemma_prop_of_binary(flat.plan, flat.children[0], flat.children[1]);
            },
            RelOperatorView::Aggregate(aggregate) => {
                law_cross_join_gives_derived(state, correlated, child);
                let below = flatten(state, correlated, child, true);
                law_flatten_keeps_output(state, correlated, child, true);
                lemma_aggregate_output(
                    state_after(below),
                    correlated,
                    aggregate,
                    flat_plan(below),
                );
            },
            RelOperatorView::Sort(_, _) => {
                law_cross_join_gives_derived(state, correlated, child);
                lemma_prop_of_unary(flat.plan, flat.children[0]);
            },
            RelOperatorView::Limit(_) => {
                law_cross_join_gives_derived(state, correlated, child);
                lemma_prop_of_unary(flat.plan, flat.children[0]);
            },
            RelOperatorView::UnionAll(pairs) => {
                lemma_flatten_children(state, correlated, plan, true, flat.plan);
                let left = flatten(state, correlated, child, true);
                law_flatten_keeps_output(state, correlated, child, true);
                law_flatten_keeps_output(
                    state_after(left),
                    correlated,
                    plan.children[1],
                    true,
                );
                law_cross_join_gives_derived(state_after(left), correlated, plan.children[1]);
                lemma_prop_of_binary(flat.plan, flat.children[0], flat.children[1]);
            },
            RelOperatorView::Scan(_) => {},
            RelOperatorView::Opaque(_) => {},
        }
    }
}

/// A column that an equation makes a derived column is one that the equation refers to, and is not
/// correlated.
proof fn lemma_equate_values(
    derived: Seq<(usize, usize)>,
    correlated: Seq<usize>,
    predicate: ScalarView,
)
    ensures
        equate(derived, correlated, predicate) matches Equated::All(after) ==> forall|v: usize|
         #[trigger]
            values_of(after).contains(v) ==> values_of(derived).contains(v) || (used_columns(
                predicate,
            ).contains(v) && !correlated.contains(v)),
{
    if touches(used_columns(predicate), correlated) {
        match predicate {
            ScalarView::FunctionCall(func) => {
                if func.arguments.len() >= 2 {
                    match (func.arguments[0], func.arguments[1]) {
                        (
                            ScalarView::BoundColumnRef(left),
                            ScalarView::BoundColumnRef(right),
                        ) => {
                            lemma_used_by_member(func.arguments, 0);
                            lemma_used_by_member(func.arguments, 1);
                            lemma_bind_entries(derived, left.column.index, right.column.index);
                            lemma_bind_entries(derived, right.column.index, left.column.index);
                        },
                        _ => {},
                    }
                }
            },
            _ => {},
        }
    }
}

proof fn lemma_used_by_member(scalars: Seq<ScalarView>, i: int)
    requires
        0 <= i < scalars.len(),
    ensures
        used_columns(scalars[i]).subset_of(used_by_all(scalars)),
    decreases scalars.len(),
{
    if i < scalars.len() - 1 {
        lemma_used_by_member(scalars.drop_last(), i);
    }
}

proof fn lemma_equate_all_values(
    derived: Seq<(usize, usize)>,
    correlated: Seq<usize>,
    predicates: Seq<ScalarView>,
)
    ensures
        equate_all(derived, correlated, predicates) matches Equated::All(after) ==> forall|
            v: usize,
        | #[trigger]
            values_of(after).contains(v) ==> values_of(derived).contains(v) || (used_by_all(
                predicates,
            ).contains(v) && !correlated.contains(v)),
    decreases predicates.len(),
{
    if predicates.len() > 0 {
        lemma_equate_all_values(derived, correlated, predicates.drop_last());
        match equate_all(derived, correlated, predicates.drop_last()) {
            Equated::All(next) => {
                lemma_equate_values(next, correlated, predicates.last());
            },
            _ => {},
        }
    }
}

/// The derived column of a column, once the equations of a filter were all looked at, is the one
/// from before or one that an equation refers to and that is not correlated.
proof fn lemma_equate_all_lookup(
    derived: Seq<(usize, usize)>,
    correlated: Seq<usize>,
    predicates: Seq<ScalarView>,
    column: usize,
)
    ensures
        equate_all(derived, correlated, predicates) matches Equated::All(after) ==> lookup(
            after,
            column,
        ) == lookup(derived, column) || (lookup(after, column) matches Some(v) && used_by_all(
            predicates,
        ).contains(v) && !correlated.contains(v)),
    decreases predicates.len(),
{
    if predicates.len() > 0 {
        lemma_equate_all_lookup(derived, correlated, predicates.drop_last(), column);
        match equate_all(derived, correlated, predicates.drop_last()) {
            Equated::All(next) => {
                lemma_equate_lookup(next, correlated, predicates.last(), column);
            },
            _ => {},
        }
    }
}

proof fn lemma_equate_lookup(
    derived: Seq<(usize, usize)>,
    correlated: Seq<usize>,
    predicate: ScalarView,
    column: usize,
)
    ensures
        equate(derived, correlated, predicate) matches Equated::All(after) ==> lookup(
            after,
            column,
        ) == lookup(derived, column) || (lookup(after, column) matches Some(v) && used_columns(
            predicate,
        ).contains(v) && !correlated.contains(v)),
{
    if touches(used_columns(predicate), correlated) {
        match predicate {
            ScalarView::FunctionCall(func) => {
                if func.arguments.len() >= 2 {
                    match (func.arguments[0], func.arguments[1]) {
                        (
                            ScalarView::BoundColumnRef(left),
                            ScalarView::BoundColumnRef(right),
                        ) => {
                            let l = left.column.index;
                            let r = right.column.index;
                            lemma_used_by_member(func.arguments, 0);
                            lemma_used_by_member(func.arguments, 1);
                            law_lookup_after_bind(derived, l, r, column);
                            law_lookup_after_bind(derived, r, l, column);
                        },
                        _ => {},
                    }
                }
            },
            _ => {},
        }
    }
}

/// Where a plan takes no column from around it but correlated ones, the derived column of each
/// column is given by the flat plan, unless it is the one that the step began with.
pub proof fn law_flatten_gives_derived(
    state: FlattenState,
    correlated: Seq<usize>,
    plan: SExprView,
    need_cross_join: bool,
    column: usize,
)
    requires
        flatten(state, correlated, plan, need_cross_join) is Done,
        outer_columns(plan).subset_of(correlated.to_set()),
    ensures
        lookup(state_after(flatten(state, correlated, plan, need_cross_join)).derived, column)
            matches Some(v) ==> {
            ||| output_columns(
                flat_plan(flatten(state, correlated, plan, need_cross_join)),
            ).contains(v)
            ||| lookup(state.derived, column) == Some(v)
        },
    decreases plan,
{
    let run = flatten(state, correlated, plan, need_cross_join);
    let flat = flat_plan(run);
    lemma_lookup_has_key(state_after(run).derived, column);
    if need_cross_join {
        law_cross_join_gives_derived(state, correlated, plan);
    } else if outer_columns(plan) != Set::<usize>::empty() {
        let child = plan.children[0];
        assert(relational_prop(child) is Ok);
        assert(outer_columns(child).subset_of(outer_columns(plan)));
        match plan.plan {
            RelOperatorView::EvalScalar(items) => {
                let need = touches(eval_used_columns(items), correlated);
                law_flatten_keeps_output(state, correlated, child, need);
                let below = flatten(state, correlated, child, need);
                lemma_eval_scalar_output(
                    state_after(below),
                    correlated,
                    items,
                    flat_plan(below),
                );
            },
            RelOperatorView::Filter(filter) => {
                let entered = enter_filter(state, correlated, filter.predicates, false);
                let next = entered->Done_0;
                let need = entered->Done_1;
                lemma_equate_all_lookup(state.derived, correlated, filter.predicates, column);
                assert(lookup(next.derived, column) matches Some(v) ==> output_columns(
                    child,
                ).contains(v) || lookup(state.derived, column) == Some(v)) by {
                    if lookup(next.derived, column) is Some && lookup(next.derived, column)
                        != lookup(state.derived, column) {
                        let v = lookup(next.derived, column)->0;
                        if !output_columns(child).contains(v) {
                            assert(outer_columns(plan).contains(v));
                            assert(correlated.to_set().contains(v));
                        }
                    }
                }
                law_flatten_gives_derived(next, correlated, child, need, column);
                law_flatten_keeps_output(next, correlated, child, need);
                lemma_prop_of_unary(flat.plan, flat.children[0]);
            },
            RelOperatorView::Join(join) => {
                let need = touches(join_used_columns(join), correlated);
                lemma_flatten_children(state, correlated, plan, need, flat.plan);
                let next = state_after(flatten(state, correlated, child, need));
                assert(outer_columns(plan.children[1]).subset_of(outer_columns(plan)));
                law_flatten_keeps_output(state, correlated, child, need);
                law_flatten_keeps_output(next, correlated, plan.children[1], need);
                law_flatten_gives_derived(state, correlated, child, need, column);
                law_flatten_gives_derived(next, correlated, plan.children[1], need, column);
                lemma_prop_of_binary(flat.plan, flat.children[0], flat.children[1]);
            },
            RelOperatorView::Aggregate(aggregate) => {
                let need = touches(aggregate_used_columns(aggregate), correlated);
                law_flatten_keeps_output(state, correlated, child, need);
                let below = flatten(state, correlated, child, need);
                lemma_aggregate_output(
                    state_after(below),
                    correlated,
                    aggregate,
                    flat_plan(below),
                );
            },
            RelOperatorView::Sort(_, _) => {
                assert(flatten_child(state, correlated, plan, 0, false) is Done);
                law_flatten_gives_derived(state, correlated, child, false, column);
                lemma_prop_of_unary(flat.plan, flat.children[0]);
            },
            RelOperatorView::Limit(_) => {
                assert(flatten_child(state, correlated, plan, 0, false) is Done);
                law_flatten_gives_derived(state, correlated, child, false, column);
                lemma_prop_of_unary(flat.plan, flat.children[0]);
            },
            RelOperatorView::UnionAll(pairs) => {
                let need = touches(union_used_columns(pairs), correlated);
                lemma_flatten_children(state, correlated, plan, need, flat.plan);
                let next = state_after(flatten(state, correlated, child, need));
                assert(outer_columns(plan.children[1]).subset_of(outer_columns(plan)));
                law_flatten_keeps_output(state, correlated, child, need);
                law_flatten_keeps_output(next, correlated, plan.children[1], need);
                law_flatten_gives_derived(state, correlated, child, need, column);
                law_flatten_gives_derived(next, correlated, plan.children[1], need, column);
                lemma_prop_of_binary(flat.plan, flat.children[0], flat.children[1]);
            },
            RelOperatorView::Scan(_) => {},
            RelOperatorView::Opaque(_) => {},
        }
    }
}

/// Whether a predicate, if it is an equation with a correlated column in it, has two sides, which
/// are not two correlated columns.
pub open spec fn one_sided_equation(predicate: ScalarView, correlated: Seq<usize>) -> bool {
    match predicate {
        ScalarView::FunctionCall(func) => func.func_name == func_name(ComparisonOp::Equal)
            && touches(used_columns(predicate), correlated) ==> {
            &&& func.arguments.len() == 2
            &&& match (func.arguments[0], func.arguments[1]) {
                (ScalarView::BoundColumnRef(left), ScalarView::BoundColumnRef(right)) => !(
                correlated.contains(left.column.index) && correlated.contains(right.column.index)),
                _ => true,
            }
        },
        _ => true,
    }
}

/// Whether each filter of the plan has one-sided equations alone.
pub open spec fn equations_one_sided(plan: SExprView, correlated: Seq<usize>) -> bool
    decreases plan,
{
    &&& plan.plan matches RelOperatorView::Filter(filter) ==> forall|i: int|
        0 <= i < filter.predicates.len() ==> one_sided_equation(
            #[trigger] filter.predicates[i],
            correlated,
        )
    &&& forall|i: int|
        0 <= i < plan.children.len() ==> equations_one_sided(
            #[trigger] plan.children[i],
            correlated,
        )
}

/// The columns that an equation of two columns refers to.
pub proof fn lemma_equation_columns(arguments: Seq<ScalarView>)
    requires
        arguments.len() == 2,
        arguments[0] is BoundColumnRef,
        arguments[1] is BoundColumnRef,
    ensures
        used_by_all(arguments) == set![
            arguments[0]->BoundColumnRef_0.column.index,
            arguments[1]->BoundColumnRef_0.column.index,
        ],
{
    let l = arguments[0]->BoundColumnRef_0.column.index;
    let r = arguments[1]->BoundColumnRef_0.column.index;
    let front = arguments.drop_last();
    assert(used_by_all(front.drop_last()) =~= Set::<usize>::empty());
    assert(front.last() == arguments[0]);
    assert(used_columns(arguments[0]) == set![l]);
    assert(used_columns(arguments[1]) == set![r]);
    assert(used_by_all(front) =~= set![l]);
    assert(arguments.last() == arguments[1]);
    assert(used_by_all(arguments) =~= set![l, r]);
}

/// A correlated column in one-sided equations has a column that they refer to for its derived
/// column, whatever it had before.
proof fn lemma_equate_all_rebinds(
    derived: Seq<(usize, usize)>,
    correlated: Seq<usize>,
    predicates: Seq<ScalarView>,
    column: usize,
)
    requires
        correlated.contains(column),
        used_by_all(predicates).contains(column),
        forall|i: int|
            0 <= i < predicates.len() ==> one_sided_equation(#[trigger] predicates[i], correlated),
    ensures
        equate_all(derived, correlated, predicates) matches Equated::All(after) ==> (lookup(
            after,
            column,
        ) matches Some(v) && used_by_all(predicates).contains(v) && !correlated.contains(v)),
    decreases predicates.len(),
{
    let front = predicates.drop_last();
    let last = predicates.last();
    assert(one_sided_equation(predicates[predicates.len() - 1], correlated));
    if used_by_all(front).contains(column) {
        assert forall|i: int| 0 <= i < front.len() implies one_sided_equation(
            #[trigger] front[i],
            correlated,
        ) by {
            assert(front[i] == predicates[i]);
        }
        lemma_equate_all_rebinds(derived, correlated, front, column);
    }
    match equate_all(derived, correlated, front) {
        Equated::All(next) => {
            lemma_equate_lookup(next, correlated, last, column);
            if used_columns(last).contains(column) {
                assert(touches(used_columns(last), correlated));
                match last {
                    ScalarView::FunctionCall(func) => {
                        if equate(next, correlated, last) is All {
                            let l = func.arguments[0]->BoundColumnRef_0.column.index;
                            let r = func.arguments[1]->BoundColumnRef_0.column.index;
                            lemma_equation_columns(func.arguments);
                            law_lookup_after_bind(next, l, r, column);
                            law_lookup_after_bind(next, r, l, column);
                        }
                    },
                    _ => {},
                }
            }
        },
        _ => {},
    }
}

/// Each correlated column that a plan takes from around it gets a derived column that the flat plan
/// gives, whatever the step began with. This is said of plans that take correlated columns alone
/// from around them and equate no two of them.
pub proof fn law_flatten_rebinds(
    state: FlattenState,
    correlated: Seq<usize>,
    plan: SExprView,
    need_cross_join: bool,
    column: usize,
)
    requires
        flatten(state, correlated, plan, need_cross_join) is Done,
        outer_columns(plan).subset_of(correlated.to_set()),
        outer_columns(plan).contains(column),
        equations_one_sided(plan, correlated),
    ensures
        lookup(state_after(flatten(state, correlated, plan, need_cross_join)).derived, column)
            matches Some(v) && output_columns(
            flat_plan(flatten(state, correlated, plan, need_cross_join)),
        ).contains(v),
    decreases plan, 1nat,
{
    let run = flatten(state, correlated, plan, need_cross_join);
    let flat = flat_plan(run);
    assert(correlated.to_set().contains(column));
    lemma_lookup_has_key(state_after(run).derived, column);
    if need_cross_join {
        law_cross_join_gives_derived(state, correlated, plan);
    } else {
        let child = plan.children[0];
        assert(relational_prop(child) is Ok);
        assert(outer_columns(child).subset_of(outer_columns(plan)));
        assert(equations_one_sided(child, correlated));
        match plan.plan {
            RelOperatorView::EvalScalar(items) => {
                let need = touches(eval_used_columns(items), correlated);
                let below = flatten(state, correlated, child, need);
                assert(below == flatten_child(state, correlated, plan, 0, need));
                law_flatten_keeps_output(state, correlated, child, need);
                lemma_eval_scalar_output(
                    state_after(below),
                    correlated,
                    items,
                    flat_plan(below),
                );
                if need {
                    law_cross_join_gives_derived(state, correlated, child);
                } else {
                    assert(!eval_used_columns(items).contains(column));
                    law_flatten_rebinds(state, correlated, child, need, column);
                }
                lemma_lookup_has_key(state_after(below).derived, column);
            },
            RelOperatorView::Filter(filter) => {
                lemma_filter_rebinds(state, correlated, plan, column);
            },
            RelOperatorView::Join(join) => {
                let need = touches(join_used_columns(join), correlated);
                lemma_flatten_children(state, correlated, plan, need, flat.plan);
                lemma_children_rebind(state, correlated, plan, need, column);
                lemma_prop_of_binary(flat.plan, flat.children[0], flat.children[1]);
            },
            RelOperatorView::Aggregate(aggregate) => {
                let used = aggregate_used_columns(aggregate);
                let need = touches(used, correlated);
                let below = flatten(state, correlated, child, need);
                assert(below == flatten_child(state, correlated, plan, 0, need));
                law_flatten_keeps_output(state, correlated, child, need);
                lemma_aggregate_output(
                    state_after(below),
                    correlated,
                    aggregate,
                    flat_plan(below),
                );
                if need {
                    law_cross_join_gives_derived(state, correlated, child);
                } else {
                    assert(!used.contains(column));
                    law_flatten_rebinds(state, correlated, child, need, column);
                }
                lemma_lookup_has_key(state_after(below).derived, column);
            },
            RelOperatorView::Sort(_, _) => {
                assert(flatten_child(state, correlated, plan, 0, false) is Done);
                law_flatten_rebinds(state, correlated, child, false, column);
                lemma_prop_of_unary(flat.plan, flat.children[0]);
            },
            RelOperatorView::Limit(_) => {
                assert(flatten_child(state, correlated, plan, 0, false) is Done);
                law_flatten_rebinds(state, correlated, child, false, column);
                lemma_prop_of_unary(flat.plan, flat.children[0]);
            },
            RelOperatorView::UnionAll(pairs) => {
                let need = touches(union_used_columns(pairs), correlated);
                lemma_flatten_children(state, correlated, plan, need, flat.plan);
                lemma_children_rebind(state, correlated, plan, need, column);
                lemma_prop_of_binary(flat.plan, flat.children[0], flat.children[1]);
            },
            RelOperatorView::Scan(_) => {},
            RelOperatorView::Opaque(_) => {},
        }
    }
}

proof fn lemma_filter_rebinds(
    state: FlattenState,
    correlated: Seq<usize>,
    plan: SExprView,
    column: usize,
)
    requires
        plan.plan is Filter,
        flatten(state, correlated, plan, false) is Done,
        outer_columns(plan).subset_of(correlated.to_set()),
        outer_columns(plan).contains(column),
        equations_one_sided(plan, correlated),
    ensures
        lookup(state_after(flatten(state, correlated, plan, false)).derived, column) matches Some(v)
            && output_columns(flat_plan(flatten(state, correlated, plan, false))).contains(v),
    decreases plan, 0nat,
{
    let flat = flat_plan(flatten(state, correlated, plan, false));
    let filter = plan.plan->Filter_0;
    let child = plan.children[0];
    let entered = enter_filter(state, correlated, filter.predicates, false);
    let inner = entered->Done_0;
    let need = entered->Done_1;
    let below = flatten(inner, correlated, child, need);
    assert(below == flatten_child(inner, correlated, plan, 0, need));
    let next = state_after(below);
    assert(correlated.to_set().contains(column));
    assert(outer_columns(child).subset_of(outer_columns(plan)));
    assert(equations_one_sided(child, correlated));
    law_flatten_keeps_output(inner, correlated, child, need);
    lemma_prop_of_unary(flat.plan, flat_plan(below));
    lemma_lookup_has_key(next.derived, column);
    if need {
        law_cross_join_gives_derived(inner, correlated, child);
    } else if outer_columns(child).contains(column) {
        law_flatten_rebinds(inner, correlated, child, need, column);
    } else {
        lemma_equate_all_rebinds(state.derived, correlated, filter.predicates, column);
        let v = lookup(inner.derived, column)->0;
        if !output_columns(child).contains(v) {
            assert(outer_columns(plan).contains(v));
            assert(correlated.to_set().contains(v));
        }
        law_flatten_gives_derived(inner, correlated, child, need, column);
        lemma_lookup_has_key(inner.derived, column);
        law_flatten_keeps_keys(inner, correlated, child, need, column);
    }
}

proof fn lemma_children_rebind(
    state: FlattenState,
    correlated: Seq<usize>,
    plan: SExprView,
    need: bool,
    column: usize,
)
    requires
        plan.children.len() >= 2,
        plan.plan is Join || plan.plan is UnionAll,
        relational_prop(plan) is Ok,
        plan.plan matches RelOperatorView::Join(join) ==> (touches(
            join_used_columns(join),
            correlated,
        ) ==> need),
        outer_columns(plan).subset_of(correlated.to_set()),
        outer_columns(plan).contains(column),
        equations_one_sided(plan, correlated),
        flatten(state, correlated, plan.children[0], need) is Done,
        flatten(
            state_after(flatten(state, correlated, plan.children[0], need)),
            correlated,
            plan.children[1],
            need,
        ) is Done,
    ensures
        ({
            let left = flatten(state, correlated, plan.children[0], need);
            let right = flatten(state_after(left), correlated, plan.children[1], need);
            &&& relational_prop(flat_plan(left)) is Ok
            &&& relational_prop(flat_plan(right)) is Ok
            &&& lookup(state_after(right).derived, column) matches Some(v) && (output_columns(
                flat_plan(left),
            ).contains(v) || output_columns(flat_plan(right)).contains(v))
        }),
    decreases plan, 0nat,
{
    let first = plan.children[0];
    let second = plan.children[1];
    let next = state_after(flatten(state, correlated, first, need));
    let last = state_after(flatten(next, correlated, second, need));
    assert(relational_prop(first) is Ok);
    assert(relational_prop(second) is Ok);
    assert(outer_columns(first).subset_of(outer_columns(plan)));
    assert(outer_columns(second).subset_of(outer_columns(plan)));
    assert(equations_one_sided(first, correlated));
    assert(equations_one_sided(second, correlated));
    assert(correlated.to_set().contains(column));
    law_flatten_keeps_output(state, correlated, first, need);
    law_flatten_keeps_output(next, correlated, second, need);
    lemma_lookup_has_key(last.derived, column);
    if need {
        law_cross_join_gives_derived(next, correlated, second);
    } else if outer_columns(second).contains(column) {
        law_flatten_rebinds(next, correlated, second, need, column);
    } else if outer_columns(first).contains(column) {
        law_flatten_rebinds(state, correlated, first, need, column);
        law_flatten_gives_derived(next, correlated, second, need, column);
        lemma_lookup_has_key(next.derived, column);
        law_flatten_keeps_keys(next, correlated, second, need, column);
    } else {
        assert(join_used_columns(plan.plan->Join_0).contains(column));
    }
}

/// A correlated column that has a derived column keeps one.
pub proof fn law_flatten_keeps_keys(
    state: FlattenState,
    correlated: Seq<usize>,
    plan: SExprView,
    need_cross_join: bool,
    column: usize,
)
    requires
        flatten(state, correlated, plan, need_cross_join) is Done,
        correlated.contains(column),
        has_key(state.derived, column),
    ensures
        has_key(
            state_after(flatten(state, correlated, plan, need_cross_join)).derived,
            column,
        ),
    decreases plan,
{
    let run = flatten(state, correlated, plan, need_cross_join);
    let flat = flat_plan(run);
    if need_cross_join {
        law_cross_join_gives_derived(state, correlated, plan);
    } else if outer_columns(plan) != Set::<usize>::empty() {
        let child = plan.children[0];
        match plan.plan {
            RelOperatorView::EvalScalar(items) => {
                let need = touches(eval_used_columns(items), correlated);
                assert(flatten_child(state, correlated, plan, 0, need) is Done);
                law_flatten_keeps_keys(state, correlated, child, need, column);
            },
            RelOperatorView::Filter(filter) => {
                let entered = enter_filter(state, correlated, filter.predicates, false);
                let inner = entered->Done_0;
                let need = entered->Done_1;
                assert(flatten_child(inner, correlated, plan, 0, need) is Done);
                if need {
                    law_cross_join_gives_derived(inner, correlated, child);
                } else {
                    lemma_equate_all_lookup(state.derived, correlated, filter.predicates, column);
                    lemma_lookup_has_key(state.derived, column);
                    lemma_lookup_has_key(inner.derived, column);
                    law_flatten_keeps_keys(inner, correlated, child, need, column);
                }
            },
            RelOperatorView::Join(join) => {
                let need = touches(join_used_columns(join), correlated);
                lemma_flatten_children(state, correlated, plan, need, flat.plan);
                let next = state_after(flatten(state, correlated, child, need));
                law_flatten_keeps_keys(state, correlated, child, need, column);
                law_flatten_keeps_keys(next, correlated, plan.children[1], need, column);
            },
            RelOperatorView::Aggregate(aggregate) => {
                let need = touches(aggregate_used_columns(aggregate), correlated);
                let below = flatten_child(state, correlated, plan, 0, need);
                assert(below is Done);
                law_flatten_keeps_keys(state, correlated, child, need, column);
                lemma_flatten_aggregates_frame(
                    state_after(below),
                    correlated,
                    aggregate.aggregate_functions,
                );
            },
            RelOperatorView::Sort(_, _) => {
                assert(flatten_child(state, correlated, plan, 0, false) is Done);
                law_flatten_keeps_keys(state, correlated, child, false, column);
            },
            RelOperatorView::Limit(_) => {
                assert(flatten_child(state, correlated, plan, 0, false) is Done);
                law_flatten_keeps_keys(state, correlated, child, false, column);
            },
            RelOperatorView::UnionAll(pairs) => {
                let need = touches(union_used_columns(pairs), correlated);
                lemma_flatten_children(state, correlated, plan, need, flat.plan);
                let next = state_after(flatten(state, correlated, child, need));
                law_flatten_keeps_keys(state, correlated, child, need, column);
                law_flatten_keeps_keys(next, correlated, plan.children[1], need, column);
            },
            RelOperatorView::Scan(_) => {},
            RelOperatorView::Opaque(_) => {},
        }
    }
}

/// Whether no derived column is correlated.
pub open spec fn apart(derived: Seq<(usize, usize)>, correlated: Seq<usize>) -> bool {
    forall|v: usize| #[trigger] values_of(derived).contains(v) ==> !correlated.contains(v)
}

/// Whether every correlated column in a condition of a join of the plan is given by an input of
/// that join.
pub open spec fn joins_closed(plan: SExprView, correlated: Seq<usize>) -> bool
    decreases plan,
{
    &&& plan.plan matches RelOperatorView::Join(join) ==> forall|c: usize| #[trigger]
        join_used_columns(join).contains(c) && correlated.contains(c) ==> output_columns(
            plan.children[0],
        ).contains(c) || output_columns(plan.children[1]).contains(c)
    &&& forall|i: int|
        0 <= i < plan.children.len() ==> joins_closed(#[trigger] plan.children[i], correlated)
}

proof fn lemma_untouched(scalars: Seq<ScalarView>, correlated: Seq<usize>)
    requires
        forall|i: int|
            0 <= i < scalars.len() ==> !touches(used_columns(#[trigger] scalars[i]), correlated),
    ensures
        !touches(used_by_all(scalars), correlated),
    decreases scalars.len(),
{
    if scalars.len() > 0 {
        let front = scalars.drop_last();
        lemma_untouched(front, correlated);
        assert(!touches(used_columns(scalars[scalars.len() - 1]), correlated));
        if touches(used_by_all(scalars), correlated) {
            let c = choose|c: usize| #[trigger]
                used_by_all(scalars).contains(c) && correlated.contains(c);
            if used_by_all(front).contains(c) {
                assert(touches(used_by_all(front), correlated));
            } else {
                assert(used_columns(scalars.last()).contains(c));
                assert(touches(used_columns(scalars.last()), correlated));
            }
        }
    }
}

/// A flat scalar refers to no correlated column.
pub proof fn law_flatten_scalar_removes_correlated(
    columns: Seq<ColumnEntryView>,
    derived: Seq<(usize, usize)>,
    correlated: Seq<usize>,
    scalar: ScalarView,
)
    requires
        apart(derived, correlated),
    ensures
        flatten_scalar(columns, derived, correlated, scalar) matches Outcome::Done(flat)
            ==> !touches(used_columns(flat), correlated),
{
    if flatten_scalar(columns, derived, correlated, scalar) is Done {
        let flat = flatten_scalar(columns, derived, correlated, scalar)->Done_0;
        law_flatten_scalar_columns(columns, derived, correlated, scalar);
        if touches(used_columns(flat), correlated) {
            let c = choose|c: usize| #[trigger]
                used_columns(flat).contains(c) && correlated.contains(c);
            let k = choose|k: usize| #[trigger]
                used_columns(scalar).contains(k) && correlated.contains(k) && lookup(derived, k)
                    == Some(c);
            lemma_lookup_has_key(derived, k);
        }
    }
}

proof fn lemma_flatten_scalars_untouched(
    columns: Seq<ColumnEntryView>,
    derived: Seq<(usize, usize)>,
    correlated: Seq<usize>,
    scalars: Seq<ScalarView>,
)
    requires
        apart(derived, correlated),
    ensures
        flatten_scalars(columns, derived, correlated, scalars) matches Outcome::Done(flat) ==> {
            &&& flat.len() == scalars.len()
            &&& forall|i: int|
                0 <= i < flat.len() ==> !touches(used_columns(#[trigger] flat[i]), correlated)
        },
    decreases scalars.len(),
{
    if scalars.len() > 0 {
        lemma_flatten_scalars_untouched(columns, derived, correlated, scalars.drop_last());
        law_flatten_scalar_removes_correlated(columns, derived, correlated, scalars.last());
    }
}

proof fn lemma_flatten_aggregates_untouched(
    state: FlattenState,
    correlated: Seq<usize>,
    items: Seq<ScalarItemView>,
)
    requires
        apart(state.derived, correlated),
    ensures
        flatten_aggregates(state, correlated, items) matches Run::Done(_, flat) ==> forall|i: int|
            0 <= i < flat.len() ==> !touches(used_columns((#[trigger] flat[i]).scalar), correlated),
    decreases items.len(),
{
    if items.len() > 0 {
        lemma_flatten_aggregates_untouched(state, correlated, items.drop_last());
        lemma_flatten_aggregates_frame(state, correlated, items.drop_last());
        law_flatten_scalar_removes_correlated(
            state.columns,
            state.derived,
            correlated,
            items.last().scalar,
        );
    }
}

/// Items that are flat and items that pass derived columns on refer to no correlated column.
proof fn lemma_items_untouched(
    columns: Seq<ColumnEntryView>,
    derived: Seq<(usize, usize)>,
    correlated: Seq<usize>,
    items: Seq<ScalarItemView>,
)
    requires
        apart(derived, correlated),
    ensures
        flatten_items(columns, derived, correlated, items) matches Outcome::Done(flat) ==> {
            &&& !touches(
                items_used_columns(flat + derived_items(columns, derived)),
                correlated,
            )
            &&& !touches(
                items_used_columns(flat + derived_group_items(columns, derived)),
                correlated,
            )
        },
{
    if flatten_items(columns, derived, correlated, items) is Done {
        let flat = flatten_items(columns, derived, correlated, items)->Done_0;
        lemma_flatten_scalars_untouched(columns, derived, correlated, item_scalars(items));
        let passed = item_scalars(flat + derived_items(columns, derived));
        let grouped = item_scalars(flat + derived_group_items(columns, derived));
        assert forall|i: int| 0 <= i < passed.len() implies !touches(
            used_columns(#[trigger] passed[i]),
            correlated,
        ) && !touches(used_columns(grouped[i]), correlated) by {
            if i >= flat.len() {
                let v = values_of(derived)[i - flat.len()];
                assert(values_of(derived).contains(v));
                assert(used_columns(passed[i]) == set![v]);
                assert(used_columns(grouped[i]) == set![v]);
            }
        }
        assert forall|i: int| 0 <= i < grouped.len() implies !touches(
            used_columns(#[trigger] grouped[i]),
            correlated,
        ) by {
            assert(!touches(used_columns(passed[i]), correlated));
        }
        lemma_untouched(passed, correlated);
        lemma_untouched(grouped, correlated);
    }
}

pub proof fn lemma_known_when_grown(
    old: Seq<ColumnEntryView>,
    new: Seq<ColumnEntryView>,
    correlated: Seq<usize>,
    indexes: Seq<usize>,
)
    requires
        grown(old, new, correlated),
        all_known(old, indexes),
    ensures
        all_known(new, indexes),
        old.len() <= new.len(),
{
    assert forall|i: int| 0 <= i < indexes.len() implies #[trigger] indexes[i] < new.len() by {
        assert(indexes[i] < old.len());
    }
}

/// An operator over one input takes no correlated column from around it if neither the input does
/// nor a reference of its own.
proof fn lemma_unary_untouched(
    child: SExprView,
    used: Set<usize>,
    added: Set<usize>,
    correlated: Seq<usize>,
)
    requires
        relational_prop(child) is Ok,
        !touches(outer_columns(child), correlated),
        !touches(used, correlated),
    ensures
        !touches(over_child(relational_prop(child), used, added)->Ok_0.outer_columns, correlated),
{
    let outer = over_child(relational_prop(child), used, added)->Ok_0.outer_columns;
    if touches(outer, correlated) {
        let c = choose|c: usize| #[trigger] outer.contains(c) && correlated.contains(c);
        if outer_columns(child).contains(c) {
            assert(touches(outer_columns(child), correlated));
        } else {
            assert(used.contains(c));
            assert(touches(used, correlated));
        }
    }
}

/// A flat plan takes no correlated column from around it, and no derived column is correlated.
/// The conditions of joins stay as they are, so this is said of plans whose joins refer to no
/// correlated column but those that their inputs give.
pub proof fn law_flatten_removes_correlated(
    state: FlattenState,
    correlated: Seq<usize>,
    plan: SExprView,
    need_cross_join: bool,
)
    requires
        flatten(state, correlated, plan, need_cross_join) is Done,
        state_after(flatten(state, correlated, plan, need_cross_join)).columns.len() <= usize::MAX,
        all_known(state.columns, correlated),
        apart(state.derived, correlated),
        joins_closed(plan, correlated),
    ensures
        apart(
            state_after(flatten(state, correlated, plan, need_cross_join)).derived,
            correlated,
        ),
        !touches(
            outer_columns(flat_plan(flatten(state, correlated, plan, need_cross_join))),
            correlated,
        ),
    decreases plan, 1nat,
{
    let run = flatten(state, correlated, plan, need_cross_join);
    let flat = flat_plan(run);
    if outer_columns(plan) == Set::<usize>::empty() {
        if need_cross_join {
            lemma_add_derived_columns(state.columns, state.derived, correlated);
            let after = state_after(run);
            assert forall|v: usize| #[trigger]
                values_of(after.derived).contains(v) implies !correlated.contains(v) by {
                if correlated.contains(v) {
                    let i = choose|i: int| 0 <= i < correlated.len() && correlated[i] == v;
                    assert(correlated[i] < state.columns.len());
                }
            }
            lemma_prop_of_binary(flat.plan, flat.children[0], flat.children[1]);
            assert(outer_columns(flat) =~= Set::<usize>::empty());
        }
    } else {
        let child = plan.children[0];
        assert(joins_closed(child, correlated));
        match plan.plan {
            RelOperatorView::EvalScalar(items) => {
                let need = need_cross_join || touches(eval_used_columns(items), correlated);
                let below = flatten(state, correlated, child, need);
                assert(below == flatten_child(state, correlated, plan, 0, need));
                let next = state_after(below);
                law_flatten_removes_correlated(state, correlated, child, need);
                law_flatten_keeps_output(state, correlated, child, need);
                lemma_items_untouched(next.columns, next.derived, correlated, items);
                let flat_items = flat.plan->EvalScalar_0;
                lemma_unary_untouched(
                    flat_plan(below),
                    items_used_columns(flat_items),
                    item_columns(flat_items),
                    correlated,
                );
                lemma_prop_of_unary(flat.plan, flat_plan(below));
            },
            RelOperatorView::Filter(filter) => {
                let entered = enter_filter(state, correlated, filter.predicates, need_cross_join);
                let inner = entered->Done_0;
                let need = entered->Done_1;
                lemma_equate_all_values(state.derived, correlated, filter.predicates);
                assert(apart(inner.derived, correlated));
                let below = flatten(inner, correlated, child, need);
                assert(below == flatten_child(inner, correlated, plan, 0, need));
                let next = state_after(below);
                law_flatten_removes_correlated(inner, correlated, child, need);
                law_flatten_keeps_output(inner, correlated, child, need);
                lemma_flatten_scalars_untouched(
                    next.columns,
                    next.derived,
                    correlated,
                    filter.predicates,
                );
                let predicates = flat.plan->Filter_0.predicates;
                lemma_untouched(predicates, correlated);
                lemma_unary_untouched(
                    flat_plan(below),
                    used_by_all(predicates),
                    Set::empty(),
                    correlated,
                );
                lemma_prop_of_unary(flat.plan, flat_plan(below));
            },
            RelOperatorView::Join(join) => {
                let need = need_cross_join || touches(join_used_columns(join), correlated);
                lemma_flatten_children(state, correlated, plan, need, flat.plan);
                lemma_children_remove_correlated(state, correlated, plan, need);
                lemma_prop_of_binary(flat.plan, flat.children[0], flat.children[1]);
                if touches(outer_columns(flat), correlated) {
                    let c = choose|c: usize| #[trigger]
                        outer_columns(flat).contains(c) && correlated.contains(c);
                    if outer_columns(flat.children[0]).contains(c) {
                        assert(touches(outer_columns(flat.children[0]), correlated));
                    } else if outer_columns(flat.children[1]).contains(c) {
                        assert(touches(outer_columns(flat.children[1]), correlated));
                    } else {
                        assert(join_used_columns(flat.plan->Join_0) == join_used_columns(join));
                        assert(join_used_columns(join).contains(c));
                    }
                }
            },
            RelOperatorView::Aggregate(aggregate) => {
                let need = need_cross_join || touches(
                    aggregate_used_columns(aggregate),
                    correlated,
                );
                let below = flatten(state, correlated, child, need);
                assert(below == flatten_child(state, correlated, plan, 0, need));
                let next = state_after(below);
                lemma_flatten_aggregates_frame(next, correlated, aggregate.aggregate_functions);
                law_flatten_removes_correlated(state, correlated, child, need);
                law_flatten_keeps_output(state, correlated, child, need);
                lemma_items_untouched(
                    next.columns,
                    next.derived,
                    correlated,
                    aggregate.group_items,
                );
                lemma_flatten_aggregates_untouched(
                    next,
                    correlated,
                    aggregate.aggregate_functions,
                );
                let flat_aggregate = flat.plan->Aggregate_0;
                let groups = items_used_columns(flat_aggregate.group_items);
                let functions = items_used_columns(flat_aggregate.aggregate_functions);
                lemma_untouched(item_scalars(flat_aggregate.aggregate_functions), correlated);
                assert(!touches(groups.union(functions), correlated)) by {
                    if touches(groups.union(functions), correlated) {
                        let c = choose|c: usize| #[trigger]
                            groups.union(functions).contains(c) && correlated.contains(c);
                        assert(groups.contains(c) || functions.contains(c));
                    }
                }
                lemma_unary_untouched(
                    flat_plan(below),
                    groups.union(functions),
                    Set::empty(),
                    correlated,
                );
                lemma_prop_of_unary(flat.plan, flat_plan(below));
            },
            RelOperatorView::Sort(_, _) => {
                assert(flatten_child(state, correlated, plan, 0, need_cross_join) is Done);
                law_flatten_removes_correlated(state, correlated, child, need_cross_join);
                lemma_prop_of_unary(flat.plan, flat.children[0]);
            },
            RelOperatorView::Limit(_) => {
                assert(flatten_child(state, correlated, plan, 0, need_cross_join) is Done);
                law_flatten_removes_correlated(state, correlated, child, need_cross_join);
                lemma_prop_of_unary(flat.plan, flat.children[0]);
            },
            RelOperatorView::UnionAll(pairs) => {
                let need = need_cross_join || touches(union_used_columns(pairs), correlated);
                lemma_flatten_children(state, correlated, plan, need, flat.plan);
                lemma_children_remove_correlated(state, correlated, plan, need);
                lemma_prop_of_binary(flat.plan, flat.children[0], flat.children[1]);
                if touches(outer_columns(flat), correlated) {
                    let c = choose|c: usize| #[trigger]
                        outer_columns(flat).contains(c) && correlated.contains(c);
                    if outer_columns(flat.children[0]).contains(c) {
                        assert(touches(outer_columns(flat.children[0]), correlated));
                    } else {
                        assert(outer_columns(flat.children[1]).contains(c));
                        assert(touches(outer_columns(flat.children[1]), correlated));
                    }
                }
            },
            RelOperatorView::Scan(_) => {},
            RelOperatorView::Opaque(_) => {},
        }
    }
}

proof fn lemma_children_remove_correlated(
    state: FlattenState,
    correlated: Seq<usize>,
    plan: SExprView,
    need_cross_join: bool,
)
    requires
        plan.children.len() >= 2,
        all_known(state.columns, correlated),
        apart(state.derived, correlated),
        joins_closed(plan, correlated),
        flatten(state, correlated, plan.children[0], need_cross_join) is Done,
        ({
            let right = flatten(
                state_after(flatten(state, correlated, plan.children[0], need_cross_join)),
                correlated,
                plan.children[1],
                need_cross_join,
            );
            &&& right is Done
            &&& state_after(right).columns.len() <= usize::MAX
        }),
    ensures
        ({
            let left = flatten(state, correlated, plan.children[0], need_cross_join);
            let right = flatten(
                state_after(left),
                correlated,
                plan.children[1],
                need_cross_join,
            );
            &&& apart(state_after(right).derived, correlated)
            &&& relational_prop(flat_plan(left)) is Ok
            &&& relational_prop(flat_plan(right)) is Ok
            &&& output_columns(plan.children[0]).subset_of(output_columns(flat_plan(left)))
            &&& output_columns(plan.children[1]).subset_of(output_columns(flat_plan(right)))
            &&& !touches(outer_columns(flat_plan(left)), correlated)
            &&& !touches(outer_columns(flat_plan(right)), correlated)
        }),
    decreases plan, 0nat,
{
    let left = flatten(state, correlated, plan.children[0], need_cross_join);
    let next = state_after(left);
    assert(joins_closed(plan.children[0], correlated));
    assert(joins_closed(plan.children[1], correlated));
    law_flatten_keeps_output(state, correlated, plan.children[0], need_cross_join);
    law_flatten_keeps_output(next, correlated, plan.children[1], need_cross_join);
    law_flatten_adds_columns(state, correlated, plan.children[0], need_cross_join);
    law_flatten_adds_columns(next, correlated, plan.children[1], need_cross_join);
    lemma_known_when_grown(state.columns, next.columns, correlated, correlated);
    law_flatten_removes_correlated(state, correlated, plan.children[0], need_cross_join);
    law_flatten_removes_correlated(next, correlated, plan.children[1], need_cross_join);
}

/// A plan that takes no column from around it stays as it is, and so does the state, unless
/// something above it needs the correlated columns.
pub proof fn law_uncorrelated_unchanged(
    state: FlattenState,
    correlated: Seq<usize>,
    plan: SExprView,
)
    requires
        relational_prop(plan) is Ok,
        outer_columns(plan) == Set::<usize>::empty(),
    ensures
        flatten(state, correlated, plan, false) == Run::Done(state, plan),
{
}

/// Whether a predicate equates two columns.
pub open spec fn equates_columns(predicate: ScalarView) -> bool {
    predicate matches ScalarView::FunctionCall(func) && func.func_name == func_name(
        ComparisonOp::Equal,
    ) && func.arguments.len() >= 2 && func.arguments[0] is BoundColumnRef
        && func.arguments[1] is BoundColumnRef
}

/// Beneath a filter the correlated columns are needed exactly if they were needed above it or the
/// filter refers to a correlated column otherwise than by equating two columns.
pub proof fn law_filter_needs_cross_join(
    state: FlattenState,
    correlated: Seq<usize>,
    predicates: Seq<ScalarView>,
    need_cross_join: bool,
)
    ensures
        enter_filter(state, correlated, predicates, need_cross_join) matches Run::Done(_, need)
            ==> (need <==> need_cross_join || exists|i: int|
            0 <= i < predicates.len() && touches(
                used_columns(#[trigger] predicates[i]),
                correlated,
            ) && !equates_columns(predicates[i])),
{
    lemma_equate_all_kind(state.derived, correlated, predicates);
}

proof fn lemma_equate_all_kind(
    derived: Seq<(usize, usize)>,
    correlated: Seq<usize>,
    predicates: Seq<ScalarView>,
)
    ensures
        equate_all(derived, correlated, predicates) is All ==> forall|i: int|
            0 <= i < predicates.len() && touches(used_columns(#[trigger] predicates[i]), correlated)
                ==> equates_columns(predicates[i]),
        equate_all(derived, correlated, predicates) is NotAll ==> exists|i: int|
            0 <= i < predicates.len() && touches(
                used_columns(#[trigger] predicates[i]),
                correlated,
            ) && !equates_columns(predicates[i]),
    decreases predicates.len(),
{
    if predicates.len() > 0 {
        let front = predicates.drop_last();
        lemma_equate_all_kind(derived, correlated, front);
        match equate_all(derived, correlated, front) {
            Equated::All(next) => {
                assert(predicates[predicates.len() - 1] == predicates.last());
                assert forall|i: int|
                    0 <= i < predicates.len() - 1 && touches(
                        used_columns(#[trigger] predicates[i]),
                        correlated,
                    ) implies equates_columns(predicates[i]) by {
                    assert(front[i] == predicates[i]);
                }
            },
            Equated::NotAll(_) => {
                let i = choose|i: int|
                    0 <= i < front.len() && touches(
                        used_columns(#[trigger] front[i]),
                        correlated,
                    ) && !equates_columns(front[i]);
                assert(predicates[i] == front[i]);
            },
            Equated::Undefined => {},
        }
    }
}

/// Whether the plan refers to correlated columns in filters alone, and there only by equating two
/// columns.
pub open spec fn only_equated(plan: SExprView, correlated: Seq<usize>) -> bool
    decreases plan,
{
    &&& match plan.plan {
        RelOperatorView::EvalScalar(items) => !touches(eval_used_columns(items), correlated),
        RelOperatorView::Filter(filter) => forall|i: int|
            0 <= i < filter.predicates.len() && touches(
                used_columns(#[trigger] filter.predicates[i]),
                correlated,
            ) ==> equates_columns(filter.predicates[i]),
        RelOperatorView::Join(join) => !touches(join_used_columns(join), correlated),
        RelOperatorView::Aggregate(aggregate) => !touches(
            aggregate_used_columns(aggregate),
            correlated,
        ),
        RelOperatorView::UnionAll(pairs) => !touches(union_used_columns(pairs), correlated),
        _ => true,
    }
    &&& forall|i: int|
        0 <= i < plan.children.len() ==> only_equated(#[trigger] plan.children[i], correlated)
}

/// If the correlated columns only occur in equations of two columns, the plan is not joined with
/// their table: the query has no more columns than before.
pub proof fn law_equations_need_no_columns(
    state: FlattenState,
    correlated: Seq<usize>,
    plan: SExprView,
)
    requires
        only_equated(plan, correlated),
    ensures
        !(flatten(state, correlated, plan, false) is Undefined) ==> state_after(
            flatten(state, correlated, plan, false),
        ).columns == state.columns,
    decreases plan, 1nat,
{
    let run = flatten(state, correlated, plan, false);
    if relational_prop(plan) is Ok && outer_columns(plan) != Set::<usize>::empty()
        && plan.children.len() > 0 {
        let child = plan.children[0];
        assert(only_equated(child, correlated));
        match plan.plan {
            RelOperatorView::EvalScalar(items) => {
                let below = flatten(state, correlated, child, false);
                assert(below == flatten_child(state, correlated, plan, 0, false));
                law_equations_need_no_columns(state, correlated, child);
            },
            RelOperatorView::Filter(filter) => {
                law_filter_needs_cross_join(state, correlated, filter.predicates, false);
                let entered = enter_filter(state, correlated, filter.predicates, false);
                if entered is Done {
                    let inner = entered->Done_0;
                    let below = flatten(inner, correlated, child, false);
                    assert(below == flatten_child(inner, correlated, plan, 0, false));
                    law_equations_need_no_columns(inner, correlated, child);
                }
            },
            RelOperatorView::Join(join) => {
                let operator = RelOperatorView::Join(
                    JoinView {
                        from_correlated_subquery: false,
                        contain_runtime_filter: false,
                        ..join
                    },
                );
                assert(run == flatten_children(state, correlated, plan, false, operator));
                lemma_children_need_no_columns(state, correlated, plan, operator);
            },
            RelOperatorView::Aggregate(aggregate) => {
                let below = flatten(state, correlated, child, false);
                assert(below == flatten_child(state, correlated, plan, 0, false));
                law_equations_need_no_columns(state, correlated, child);
                lemma_flatten_aggregates_frame(
                    state_after(below),
                    correlated,
                    aggregate.aggregate_functions,
                );
            },
            RelOperatorView::Sort(_, _) => {
                let below = flatten(state, correlated, child, false);
                assert(below == flatten_child(state, correlated, plan, 0, false));
                assert(run == flatten_under(state, correlated, plan, false, plan.plan));
                law_equations_need_no_columns(state, correlated, child);
            },
            RelOperatorView::Limit(_) => {
                let below = flatten(state, correlated, child, false);
                assert(below == flatten_child(state, correlated, plan, 0, false));
                assert(run == flatten_under(state, correlated, plan, false, plan.plan));
                law_equations_need_no_columns(state, correlated, child);
            },
            RelOperatorView::UnionAll(_) => {
                assert(run == flatten_children(state, correlated, plan, false, plan.plan));
                lemma_children_need_no_columns(state, correlated, plan, plan.plan);
            },
            RelOperatorView::Scan(_) => {},
            RelOperatorView::Opaque(_) => {},
        }
    }
}

proof fn lemma_children_need_no_columns(
    state: FlattenState,
    correlated: Seq<usize>,
    plan: SExprView,
    operator: RelOperatorView,
)
    requires
        only_equated(plan, correlated),
    ensures
        !(flatten_children(state, correlated, plan, false, operator) is Undefined) ==> state_after(
            flatten_children(state, correlated, plan, false, operator),
        ).columns == state.columns,
    decreases plan, 0nat,
{
    let first = flatten_child(state, correlated, plan, 0, false);
    if plan.children.len() > 0 {
        law_equations_need_no_columns(state, correlated, plan.children[0]);
    }
    if first is Done {
        let next = first->Done_0;
        let second = flatten_child(next, correlated, plan, 1, false);
        if plan.children.len() > 1 {
            law_equations_need_no_columns(next, correlated, plan.children[1]);
        }
    }
}

/// How many inputs of an operator flattening goes into.
pub open spec fn flattened_inputs(plan: RelOperatorView) -> nat {
    match plan {
        RelOperatorView::Join(_) | RelOperatorView::UnionAll(_) => 2,
        RelOperatorView::Scan(_) | RelOperatorView::Opaque(_) => 0,
        _ => 1,
    }
}

/// Whether an aggregate function that counts is among the items.
pub open spec fn some_counts(items: Seq<ScalarItemView>) -> bool {
    exists|i: int|
        0 <= i < items.len() && ((#[trigger] items[i]).scalar matches ScalarView::AggregateFunction(
            agg,
        ) && is_count_name(agg.func_name))
}

/// Whether flattening meets an aggregate function that counts.
pub open spec fn meets_count(plan: SExprView) -> bool
    decreases plan,
{
    &&& outer_columns(plan) != Set::<usize>::empty()
    &&& {
        ||| plan.plan matches RelOperatorView::Aggregate(aggregate) && some_counts(
            aggregate.aggregate_functions,
        )
        ||| flattened_inputs(plan.plan) >= 1 && plan.children.len() >= 1 && meets_count(
            plan.children[0],
        )
        ||| flattened_inputs(plan.plan) >= 2 && plan.children.len() >= 2 && meets_count(
            plan.children[1],
        )
    }
}

pub proof fn lemma_flatten_aggregates_counts(
    state: FlattenState,
    correlated: Seq<usize>,
    items: Seq<ScalarItemView>,
)
    ensures
        flatten_aggregates(state, correlated, items) matches Run::Done(next, _)
            ==> next.from_count_func == (state.from_count_func || some_counts(items)),
    decreases items.len(),
{
    if items.len() > 0 && flatten_aggregates(state, correlated, items) is Done {
        let front = items.drop_last();
        let n = items.len() - 1;
        lemma_flatten_aggregates_counts(state, correlated, front);
        let next = state_after(flatten_aggregates(state, correlated, front));
        let flat = flatten_scalar(
            next.columns,
            next.derived,
            correlated,
            items.last().scalar,
        )->Done_0;
        assert(counts(flat) == counts(items[n].scalar));
        if some_counts(front) {
            let i = choose|i: int|
                0 <= i < front.len() && ((
                #[trigger] front[i]).scalar matches ScalarView::AggregateFunction(agg)
                    && is_count_name(agg.func_name));
            assert(items[i] == front[i]);
        }
        if some_counts(items) && !some_counts(front) {
            let i = choose|i: int|
                0 <= i < items.len() && ((
                #[trigger] items[i]).scalar matches ScalarView::AggregateFunction(agg)
                    && is_count_name(agg.func_name));
            if i < front.len() {
                assert(front[i] == items[i]);
            }
        }
    }
}

/// Flattening notes an aggregate function that counts exactly if it meets one, and forgets no
/// earlier note.
pub proof fn law_flatten_notes_count(
    state: FlattenState,
    correlated: Seq<usize>,
    plan: SExprView,
    need_cross_join: bool,
)
    requires
        flatten(state, correlated, plan, need_cross_join) is Done,
    ensures
        state_after(flatten(state, correlated, plan, need_cross_join)).from_count_func == (
        state.from_count_func || meets_count(plan)),
    decreases plan,
{
    let run = flatten(state, correlated, plan, need_cross_join);
    if outer_columns(plan) != Set::<usize>::empty() {
        let child = plan.children[0];
        match plan.plan {
            RelOperatorView::EvalScalar(items) => {
                let need = need_cross_join || touches(eval_used_columns(items), correlated);
                assert(flatten_child(state, correlated, plan, 0, need) is Done);
                law_flatten_notes_count(state, correlated, child, need);
            },
            RelOperatorView::Filter(filter) => {
                let entered = enter_filter(state, correlated, filter.predicates, need_cross_join);
                let inner = entered->Done_0;
                let need = entered->Done_1;
                assert(flatten_child(inner, correlated, plan, 0, need) is Done);
                law_flatten_notes_count(inner, correlated, child, need);
            },
            RelOperatorView::Join(join) => {
                let need = need_cross_join || touches(join_used_columns(join), correlated);
                lemma_flatten_children(state, correlated, plan, need, flat_plan(run).plan);
                let left = flatten(state, correlated, child, need);
                law_flatten_notes_count(state, correlated, child, need);
                law_flatten_notes_count(state_after(left), correlated, plan.children[1], need);
            },
            RelOperatorView::Aggregate(aggregate) => {
                let need = need_cross_join || touches(
                    aggregate_used_columns(aggregate),
                    correlated,
                );
                let below = flatten_child(state, correlated, plan, 0, need);
                assert(below is Done);
                law_flatten_notes_count(state, correlated, child, need);
                lemma_flatten_aggregates_counts(
                    state_after(below),
                    correlated,
                    aggregate.aggregate_functions,
                );
            },
            RelOperatorView::Sort(_, _) => {
                assert(flatten_child(state, correlated, plan, 0, need_cross_join) is Done);
                law_flatten_notes_count(state, correlated, child, need_cross_join);
            },
            RelOperatorView::Limit(_) => {
                assert(flatten_child(state, correlated, plan, 0, need_cross_join) is Done);
                law_flatten_notes_count(state, correlated, child, need_cross_join);
            },
            RelOperatorView::UnionAll(pairs) => {
                let need = need_cross_join || touches(union_used_columns(pairs), correlated);
                lemma_flatten_children(state, correlated, plan, need, flat_plan(run).plan);
                let left = flatten(state, correlated, child, need);
                law_flatten_notes_count(state, correlated, child, need);
                law_flatten_notes_count(state_after(left), correlated, plan.children[1], need);
            },
            RelOperatorView::Scan(_) => {},
            RelOperatorView::Opaque(_) => {},
        }
    }
}

} // verus!
