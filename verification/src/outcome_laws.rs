//! Where flattening gives a plan, where it fails, and where there is none.

use vstd::prelude::*;

use crate::column_map::values_of;
use crate::column_set::touches;
use crate::error::{ErrorCode, Stop};
use crate::flatten_laws::{lemma_flatten_aggregates_counts, some_counts};
use crate::laws::{lemma_flatten_aggregates_frame, outer_columns};
use crate::metadata::{table_of, ColumnEntryView};
use crate::model::{
    add_derived_columns, aggregate_used_columns, all_known, ended, enter_filter, equate_all,
    eval_used_columns, flatten, flatten_aggregates, flatten_child, flatten_children, flatten_items,
    flatten_scalar, flatten_scalars, Equated, FlattenState, Outcome, Run,
};
use crate::names::is_count_name;
use crate::operator_laws::{
    conditions_use_one, entered_with, items_name_one, lacks_side, law_equations_pair,
    lemma_aggregate_touches, lemma_equate_kind, lemma_items_touch, lemma_join_touches,
    needs_correlated, some_need_correlated,
};
use crate::plan::{
    item_scalars, join_used_columns, union_used_columns, JoinView, RelOperatorView, ScalarItemView,
};
use crate::property::relational_prop;
use crate::rewriter::{FlattenInfo, SubqueryRewriter};
use crate::s_expr::SExprView;
use crate::scalar::{used_columns, ComparisonOp, ScalarView};
use crate::scalar_laws::{
    has_rules, lacks_derived, law_comparison_names, law_flatten_scalar_rewrites,
    law_flatten_scalar_succeeds, references, stands_for,
};

verus! {

/// Whether a scalar has a rule for each of its parts, and each correlated column that it refers to
/// has a derived column among the columns of the query.
pub open spec fn resolves(state: FlattenState, correlated: Seq<usize>, scalar: ScalarView) -> bool {
    &&& has_rules(scalar)
    &&& forall|i: int|
        0 <= i < references(scalar).len() ==> !lacks_derived(
            state.columns,
            state.derived,
            correlated,
            #[trigger] references(scalar)[i],
        )
}

/// Whether each scalar resolves.
pub open spec fn all_resolve(
    state: FlattenState,
    correlated: Seq<usize>,
    scalars: Seq<ScalarView>,
) -> bool {
    forall|i: int| 0 <= i < scalars.len() ==> resolves(state, correlated, #[trigger] scalars[i])
}

/// Whether each item's scalar resolves.
pub open spec fn items_resolve(
    state: FlattenState,
    correlated: Seq<usize>,
    items: Seq<ScalarItemView>,
) -> bool {
    forall|i: int|
        0 <= i < items.len() ==> resolves(state, correlated, (#[trigger] items[i]).scalar)
}

/// Whether each derived column is a column of the query.
pub open spec fn derived_known(state: FlattenState) -> bool {
    forall|j: int| 0 <= j < state.derived.len() ==> (#[trigger] state.derived[j]).1
        < state.columns.len()
}

/// A scalar is flattened exactly if it resolves.
pub proof fn law_scalar_ends(state: FlattenState, correlated: Seq<usize>, scalar: ScalarView)
    ensures
        flatten_scalar(state.columns, state.derived, correlated, scalar) is Done <==> resolves(
            state,
            correlated,
            scalar,
        ),
        flatten_scalar(state.columns, state.derived, correlated, scalar) matches Outcome::Failed(e)
            ==> e == ErrorCode::InvalidScalar && !has_rules(scalar),
{
    law_flatten_scalar_succeeds(state.columns, state.derived, correlated, scalar);
    law_flatten_scalar_rewrites(state.columns, state.derived, correlated, scalar);
    if flatten_scalar(state.columns, state.derived, correlated, scalar) is Done {
        let flat = flatten_scalar(state.columns, state.derived, correlated, scalar)->Done_0;
        assert forall|i: int| 0 <= i < references(scalar).len() implies !lacks_derived(
            state.columns,
            state.derived,
            correlated,
            #[trigger] references(scalar)[i],
        ) by {
            assert(stands_for(
                state.columns,
                state.derived,
                correlated,
                references(scalar)[i],
                references(flat)[i],
            ));
        }
    }
}

proof fn lemma_scalars_end(state: FlattenState, correlated: Seq<usize>, scalars: Seq<ScalarView>)
    ensures
        flatten_scalars(state.columns, state.derived, correlated, scalars) is Done <==> all_resolve(
            state,
            correlated,
            scalars,
        ),
        flatten_scalars(state.columns, state.derived, correlated, scalars) matches Outcome::Failed(
            e,
        ) ==> e == ErrorCode::InvalidScalar && exists|i: int|
            0 <= i < scalars.len() && !has_rules(#[trigger] scalars[i]),
    decreases scalars.len(),
{
    if scalars.len() > 0 {
        let front = scalars.drop_last();
        let last = scalars[scalars.len() - 1];
        lemma_scalars_end(state, correlated, front);
        law_scalar_ends(state, correlated, last);
        if all_resolve(state, correlated, scalars) {
            assert forall|i: int| 0 <= i < front.len() implies resolves(
                state,
                correlated,
                #[trigger] front[i],
            ) by {
                assert(front[i] == scalars[i]);
            }
        }
        if all_resolve(state, correlated, front) && resolves(state, correlated, last) {
            assert forall|i: int| 0 <= i < scalars.len() implies resolves(
                state,
                correlated,
                #[trigger] scalars[i],
            ) by {
                if i < front.len() {
                    assert(front[i] == scalars[i]);
                }
            }
        }
        if flatten_scalars(state.columns, state.derived, correlated, front) is Failed {
            let i = choose|i: int| 0 <= i < front.len() && !has_rules(#[trigger] front[i]);
            assert(scalars[i] == front[i]);
        }
    }
}

/// Whether the first scalar that does not resolve is one that fails.
pub open spec fn first_trouble_fails(
    state: FlattenState,
    correlated: Seq<usize>,
    scalars: Seq<ScalarView>,
) -> bool {
    exists|i: int|
        {
            &&& 0 <= i < scalars.len()
            &&& flatten_scalar(
                state.columns,
                state.derived,
                correlated,
                #[trigger] scalars[i],
            ) is Failed
            &&& forall|j: int| 0 <= j < i ==> resolves(state, correlated, #[trigger] scalars[j])
        }
}

/// Scalars are taken from left to right: the first that does not resolve decides whether flattening
/// them fails or there is no result.
pub proof fn law_first_trouble_decides(
    state: FlattenState,
    correlated: Seq<usize>,
    scalars: Seq<ScalarView>,
)
    ensures
        flatten_scalars(state.columns, state.derived, correlated, scalars) is Failed
            <==> first_trouble_fails(state, correlated, scalars),
    decreases scalars.len(),
{
    if scalars.len() > 0 {
        let front = scalars.drop_last();
        let n = scalars.len() - 1;
        law_first_trouble_decides(state, correlated, front);
        lemma_scalars_end(state, correlated, front);
        let whole = flatten_scalars(state.columns, state.derived, correlated, scalars);
        let first = flatten_scalars(state.columns, state.derived, correlated, front);
        if first_trouble_fails(state, correlated, front) {
            let i = choose|i: int|
                {
                    &&& 0 <= i < front.len()
                    &&& flatten_scalar(
                        state.columns,
                        state.derived,
                        correlated,
                        #[trigger] front[i],
                    ) is Failed
                    &&& forall|j: int|
                        0 <= j < i ==> resolves(state, correlated, #[trigger] front[j])
                };
            assert(scalars[i] == front[i]);
            assert forall|j: int| 0 <= j < i implies resolves(
                state,
                correlated,
                #[trigger] scalars[j],
            ) by {
                assert(front[j] == scalars[j]);
            }
        }
        if first is Done && whole is Failed {
            assert(scalars[n] == scalars.last());
            assert forall|j: int| 0 <= j < n implies resolves(
                state,
                correlated,
                #[trigger] scalars[j],
            ) by {
                assert(front[j] == scalars[j]);
            }
        }
        if first_trouble_fails(state, correlated, scalars) {
            let i = choose|i: int|
                {
                    &&& 0 <= i < scalars.len()
                    &&& flatten_scalar(
                        state.columns,
                        state.derived,
                        correlated,
                        #[trigger] scalars[i],
                    ) is Failed
                    &&& forall|j: int|
                        0 <= j < i ==> resolves(state, correlated, #[trigger] scalars[j])
                };
            if i < n {
                assert(front[i] == scalars[i]);
                assert forall|j: int| 0 <= j < i implies resolves(
                    state,
                    correlated,
                    #[trigger] front[j],
                ) by {
                    assert(front[j] == scalars[j]);
                }
                assert(first_trouble_fails(state, correlated, front));
            } else {
                assert forall|j: int| 0 <= j < front.len() implies resolves(
                    state,
                    correlated,
                    #[trigger] front[j],
                ) by {
                    assert(front[j] == scalars[j]);
                }
                assert(all_resolve(state, correlated, front));
            }
        }
    }
}

/// A call and an aggregate function fail exactly if the first of their arguments that does not
/// resolve fails, and a conversion exactly if what it converts fails.
pub proof fn law_scalar_fails_as_its_parts(
    state: FlattenState,
    correlated: Seq<usize>,
    scalar: ScalarView,
)
    ensures
        flatten_scalar(state.columns, state.derived, correlated, scalar) is Failed <==> match scalar {
            ScalarView::FunctionCall(func) => first_trouble_fails(
                state,
                correlated,
                func.arguments,
            ),
            ScalarView::AggregateFunction(agg) => first_trouble_fails(state, correlated, agg.args),
            ScalarView::CastExpr(cast) => flatten_scalar(
                state.columns,
                state.derived,
                correlated,
                *cast.argument,
            ) is Failed,
            _ => !has_rules(scalar),
        },
{
    match scalar {
        ScalarView::FunctionCall(func) => {
            law_first_trouble_decides(state, correlated, func.arguments);
            assert(flatten_scalar(state.columns, state.derived, correlated, scalar) is Failed
                <==> flatten_scalars(
                state.columns,
                state.derived,
                correlated,
                func.arguments,
            ) is Failed);
        },
        ScalarView::AggregateFunction(agg) => {
            law_first_trouble_decides(state, correlated, agg.args);
            assert(flatten_scalar(state.columns, state.derived, correlated, scalar) is Failed
                <==> flatten_scalars(state.columns, state.derived, correlated, agg.args) is Failed);
        },
        ScalarView::CastExpr(cast) => {
            assert(flatten_scalar(
                state.columns,
                state.derived,
                correlated,
                *cast.argument,
            ) is Failed <==> flatten_scalar(
                state.columns,
                state.derived,
                correlated,
                scalar,
            ) is Failed);
        },
        _ => {},
    }
}

proof fn lemma_items_end(state: FlattenState, correlated: Seq<usize>, items: Seq<ScalarItemView>)
    ensures
        flatten_items(state.columns, state.derived, correlated, items) is Done <==> items_resolve(
            state,
            correlated,
            items,
        ),
        flatten_items(state.columns, state.derived, correlated, items) matches Outcome::Failed(e)
            ==> e == ErrorCode::InvalidScalar && exists|i: int|
            0 <= i < items.len() && !has_rules((#[trigger] items[i]).scalar),
{
    let scalars = item_scalars(items);
    lemma_scalars_end(state, correlated, scalars);
    if all_resolve(state, correlated, scalars) {
        assert forall|i: int| 0 <= i < items.len() implies resolves(
            state,
            correlated,
            (#[trigger] items[i]).scalar,
        ) by {
            assert(scalars[i] == items[i].scalar);
        }
    }
    if flatten_items(state.columns, state.derived, correlated, items) is Failed {
        let i = choose|i: int| 0 <= i < scalars.len() && !has_rules(#[trigger] scalars[i]);
        assert(scalars[i] == items[i].scalar);
    }
}

proof fn lemma_aggregates_end(
    state: FlattenState,
    correlated: Seq<usize>,
    items: Seq<ScalarItemView>,
)
    ensures
        flatten_aggregates(state, correlated, items) is Done <==> items_resolve(
            state,
            correlated,
            items,
        ),
        flatten_aggregates(state, correlated, items) matches Run::Failed(_, e) ==> e
            == ErrorCode::InvalidScalar && exists|i: int|
            0 <= i < items.len() && !has_rules((#[trigger] items[i]).scalar),
    decreases items.len(),
{
    if items.len() > 0 {
        let front = items.drop_last();
        let last = items[items.len() - 1];
        lemma_aggregates_end(state, correlated, front);
        lemma_flatten_aggregates_frame(state, correlated, front);
        law_scalar_ends(state, correlated, last.scalar);
        if items_resolve(state, correlated, items) {
            assert forall|i: int| 0 <= i < front.len() implies resolves(
                state,
                correlated,
                (#[trigger] front[i]).scalar,
            ) by {
                assert(front[i] == items[i]);
            }
        }
        if items_resolve(state, correlated, front) && resolves(state, correlated, last.scalar) {
            assert forall|i: int| 0 <= i < items.len() implies resolves(
                state,
                correlated,
                (#[trigger] items[i]).scalar,
            ) by {
                if i < front.len() {
                    assert(front[i] == items[i]);
                }
            }
        }
        if flatten_aggregates(state, correlated, front) is Failed {
            let i = choose|i: int| 0 <= i < front.len() && !has_rules((#[trigger] front[i]).scalar);
            assert(items[i] == front[i]);
        }
    }
}

proof fn lemma_derived_known(state: FlattenState)
    ensures
        derived_known(state) <==> all_known(state.columns, values_of(state.derived)),
{
    if derived_known(state) {
        assert forall|i: int| 0 <= i < values_of(state.derived).len() implies #[trigger] values_of(
            state.derived,
        )[i] < state.columns.len() by {
            assert(state.derived[i].1 < state.columns.len());
        }
    }
    if all_known(state.columns, values_of(state.derived)) {
        assert forall|j: int| 0 <= j < state.derived.len() implies (#[trigger] state.derived[j]).1
            < state.columns.len() by {
            assert(values_of(state.derived)[j] < state.columns.len());
        }
    }
}

/// A plan without a property fails as the property does. An operator without a rule fails, and says
/// so. Either leaves the state as it was.
pub proof fn law_flatten_fails(
    state: FlattenState,
    correlated: Seq<usize>,
    plan: SExprView,
    need_cross_join: bool,
)
    ensures
        relational_prop(plan) matches Err(e) ==> flatten(
            state,
            correlated,
            plan,
            need_cross_join,
        ) == Run::<SExprView>::Failed(state, e),
        relational_prop(plan) is Ok && outer_columns(plan) != Set::<usize>::empty() && (
        plan.plan is Scan || plan.plan is Opaque) ==> flatten(
            state,
            correlated,
            plan,
            need_cross_join,
        ) == Run::<SExprView>::Failed(state, ErrorCode::InvalidPlan),
{
}

/// Over an operator that computes columns there is a plan exactly if there is one for the input and
/// each item's scalar resolves, with each derived column known. What ends the input ends the plan.
pub proof fn law_eval_scalar_ends(
    state: FlattenState,
    correlated: Seq<usize>,
    plan: SExprView,
    need_cross_join: bool,
)
    requires
        outer_columns(plan) != Set::<usize>::empty(),
        plan.plan is EvalScalar,
    ensures
        ({
            let items = plan.plan->EvalScalar_0;
            let run = flatten(state, correlated, plan, need_cross_join);
            match flatten(
                state,
                correlated,
                plan.children[0],
                need_cross_join || items_name_one(items, correlated),
            ) {
                Run::Done(next, _) => {
                    &&& run is Done <==> items_resolve(next, correlated, items) && derived_known(
                        next,
                    )
                    &&& run is Failed <==> first_trouble_fails(
                        next,
                        correlated,
                        item_scalars(items),
                    )
                    &&& run matches Run::Failed(after, e) ==> after == next && e
                        == ErrorCode::InvalidScalar && exists|i: int|
                        0 <= i < items.len() && !has_rules((#[trigger] items[i]).scalar)
                },
                other => run == other,
            }
        }),
{
    let items = plan.plan->EvalScalar_0;
    let need = need_cross_join || touches(eval_used_columns(items), correlated);
    lemma_items_touch(items, correlated);
    assert(relational_prop(plan) is Ok);
    let below = flatten_child(state, correlated, plan, 0, need);
    assert(below == flatten(state, correlated, plan.children[0], need));
    if below is Done {
        lemma_items_end(below->Done_0, correlated, items);
        law_first_trouble_decides(below->Done_0, correlated, item_scalars(items));
        lemma_derived_known(below->Done_0);
    }
}

/// Over an aggregation there is a plan exactly if there is one for the input and the scalars of
/// group items and aggregate functions resolve, with each derived column known.
pub proof fn law_aggregate_ends(
    state: FlattenState,
    correlated: Seq<usize>,
    plan: SExprView,
    need_cross_join: bool,
)
    requires
        outer_columns(plan) != Set::<usize>::empty(),
        plan.plan is Aggregate,
    ensures
        ({
            let aggregate = plan.plan->Aggregate_0;
            let groups = aggregate.group_items;
            let functions = aggregate.aggregate_functions;
            let run = flatten(state, correlated, plan, need_cross_join);
            match flatten(
                state,
                correlated,
                plan.children[0],
                need_cross_join || items_name_one(groups, correlated) || items_name_one(
                    functions,
                    correlated,
                ),
            ) {
                Run::Done(next, _) => {
                    &&& run is Done <==> items_resolve(next, correlated, groups) && items_resolve(
                        next,
                        correlated,
                        functions,
                    ) && derived_known(next)
                    &&& run matches Run::Failed(after, _) ==> (next.from_count_func
                        ==> after.from_count_func) && (after.from_count_func
                        ==> next.from_count_func || some_counts(functions))
                    &&& run matches Run::Failed(after, e) ==> after.columns == next.columns
                        && after.derived == next.derived && e == ErrorCode::InvalidScalar && ((
                    exists|i: int|
                        0 <= i < groups.len() && !has_rules((#[trigger] groups[i]).scalar)) || (
                    exists|i: int|
                        0 <= i < functions.len() && !has_rules((#[trigger] functions[i]).scalar)))
                },
                other => run == other,
            }
        }),
{
    let aggregate = plan.plan->Aggregate_0;
    let need = need_cross_join || touches(aggregate_used_columns(aggregate), correlated);
    lemma_aggregate_touches(aggregate, correlated);
    assert(relational_prop(plan) is Ok);
    let below = flatten_child(state, correlated, plan, 0, need);
    assert(below == flatten(state, correlated, plan.children[0], need));
    if below is Done {
        lemma_items_end(below->Done_0, correlated, aggregate.group_items);
        lemma_aggregates_end(below->Done_0, correlated, aggregate.aggregate_functions);
        lemma_flatten_aggregates_frame(
            below->Done_0,
            correlated,
            aggregate.aggregate_functions,
        );
        lemma_derived_known(below->Done_0);
        lemma_failed_aggregates_count(
            below->Done_0,
            correlated,
            aggregate.aggregate_functions,
        );
    }
}

proof fn lemma_failed_aggregates_count(
    state: FlattenState,
    correlated: Seq<usize>,
    items: Seq<ScalarItemView>,
)
    ensures
        flatten_aggregates(state, correlated, items) matches Run::Failed(after, _) ==> (
        state.from_count_func ==> after.from_count_func) && (after.from_count_func
            ==> state.from_count_func || some_counts(items)),
    decreases items.len(),
{
    if items.len() > 0 {
        let front = items.drop_last();
        lemma_failed_aggregates_count(state, correlated, front);
        lemma_flatten_aggregates_counts(state, correlated, front);
        if some_counts(front) {
            let i = choose|i: int|
                0 <= i < front.len() && ((
                #[trigger] front[i]).scalar matches ScalarView::AggregateFunction(agg)
                    && is_count_name(agg.func_name));
            assert(items[i] == front[i]);
        }
    }
}

/// Whether an equation lacks a side before any predicate needs the correlated columns.
pub open spec fn breaks_off(predicates: Seq<ScalarView>, correlated: Seq<usize>) -> bool {
    exists|i: int|
        {
            &&& 0 <= i < predicates.len()
            &&& lacks_side(#[trigger] predicates[i], correlated)
            &&& forall|j: int|
                0 <= j < i ==> !needs_correlated(#[trigger] predicates[j], correlated)
        }
}

proof fn lemma_equate_breaks_off(
    derived: Seq<(usize, usize)>,
    correlated: Seq<usize>,
    predicates: Seq<ScalarView>,
)
    ensures
        equate_all(derived, correlated, predicates) is Undefined <==> breaks_off(
            predicates,
            correlated,
        ),
    decreases predicates.len(),
{
    law_comparison_names(seq!['e', 'q'], ComparisonOp::Equal);
    if predicates.len() > 0 {
        let front = predicates.drop_last();
        let n = predicates.len() - 1;
        let last = predicates[n];
        lemma_equate_breaks_off(derived, correlated, front);
        lemma_equate_kind(derived, correlated, front);
        if touches(used_columns(last), correlated) {
            let c = choose|c: usize| #[trigger]
                used_columns(last).contains(c) && correlated.contains(c);
            assert(correlated.contains(c) && used_columns(last).contains(c));
        }
        if lacks_side(last, correlated) {
            let c = choose|c: usize| #[trigger]
                correlated.contains(c) && used_columns(last).contains(c);
            assert(used_columns(last).contains(c) && correlated.contains(c));
        }
        if breaks_off(front, correlated) {
            let i = choose|i: int|
                {
                    &&& 0 <= i < front.len()
                    &&& lacks_side(#[trigger] front[i], correlated)
                    &&& forall|j: int|
                        0 <= j < i ==> !needs_correlated(#[trigger] front[j], correlated)
                };
            assert(predicates[i] == front[i]);
            assert forall|j: int| 0 <= j < i implies !needs_correlated(
                #[trigger] predicates[j],
                correlated,
            ) by {
                assert(front[j] == predicates[j]);
            }
        }
        match equate_all(derived, correlated, front) {
            Equated::All(next) => {
                assert forall|j: int| 0 <= j < n implies !needs_correlated(
                    #[trigger] predicates[j],
                    correlated,
                ) by {
                    assert(front[j] == predicates[j]);
                }
                if breaks_off(predicates, correlated) {
                    let i = choose|i: int|
                        {
                            &&& 0 <= i < predicates.len()
                            &&& lacks_side(#[trigger] predicates[i], correlated)
                            &&& forall|j: int|
                                0 <= j < i ==> !needs_correlated(
                                    #[trigger] predicates[j],
                                    correlated,
                                )
                        };
                    if i < n {
                        assert(front[i] == predicates[i]);
                        assert forall|j: int| 0 <= j < i implies !needs_correlated(
                            #[trigger] front[j],
                            correlated,
                        ) by {
                            assert(front[j] == predicates[j]);
                        }
                        assert(breaks_off(front, correlated));
                    }
                }
            },
            Equated::NotAll(_) => {
                if breaks_off(predicates, correlated) {
                    let i = choose|i: int|
                        {
                            &&& 0 <= i < predicates.len()
                            &&& lacks_side(#[trigger] predicates[i], correlated)
                            &&& forall|j: int|
                                0 <= j < i ==> !needs_correlated(
                                    #[trigger] predicates[j],
                                    correlated,
                                )
                        };
                    let k = choose|k: int|
                        0 <= k < front.len() && needs_correlated(#[trigger] front[k], correlated);
                    assert(predicates[k] == front[k]);
                    assert(i <= k);
                    assert(front[i] == predicates[i]);
                    assert forall|j: int| 0 <= j < i implies !needs_correlated(
                        #[trigger] front[j],
                        correlated,
                    ) by {
                        assert(front[j] == predicates[j]);
                    }
                    assert(breaks_off(front, correlated));
                }
            },
            Equated::Undefined => {},
        }
    }
}

/// Over a filter there is a plan exactly if no equation breaks off, there is one for the input, and
/// each predicate resolves.
pub proof fn law_filter_ends(
    state: FlattenState,
    correlated: Seq<usize>,
    plan: SExprView,
    need_cross_join: bool,
)
    requires
        outer_columns(plan) != Set::<usize>::empty(),
        plan.plan is Filter,
    ensures
        ({
            let predicates = plan.plan->Filter_0.predicates;
            let run = flatten(state, correlated, plan, need_cross_join);
            let needed = need_cross_join || some_need_correlated(predicates, correlated);
            if !need_cross_join && breaks_off(predicates, correlated) {
                run is Undefined
            } else {
                exists|inner: FlattenState|
                    {
                        &&& #[trigger] entered_with(
                            state,
                            inner,
                            correlated,
                            predicates,
                            need_cross_join,
                        )
                        &&& match flatten(inner, correlated, plan.children[0], needed) {
                            Run::Done(next, _) => {
                                &&& run is Done <==> all_resolve(next, correlated, predicates)
                                &&& run is Failed <==> first_trouble_fails(
                                    next,
                                    correlated,
                                    predicates,
                                )
                                &&& run matches Run::Failed(after, e) ==> after == next && e
                                    == ErrorCode::InvalidScalar && exists|i: int|
                                    0 <= i < predicates.len() && !has_rules(
                                        #[trigger] predicates[i],
                                    )
                            },
                            other => run == other,
                        }
                    }
            }
        }),
{
    let predicates = plan.plan->Filter_0.predicates;
    let run = flatten(state, correlated, plan, need_cross_join);
    assert(relational_prop(plan) is Ok);
    lemma_equate_breaks_off(state.derived, correlated, predicates);
    lemma_equate_kind(state.derived, correlated, predicates);
    law_equations_pair(state.derived, correlated, predicates);
    let entered = enter_filter(state, correlated, predicates, need_cross_join);
    if need_cross_join || !breaks_off(predicates, correlated) {
        let inner = entered->Done_0;
        let needed = need_cross_join || some_need_correlated(predicates, correlated);
        assert(entered->Done_1 == needed);
        assert(entered_with(state, inner, correlated, predicates, need_cross_join));
        let below = flatten_child(inner, correlated, plan, 0, needed);
        assert(below == flatten(inner, correlated, plan.children[0], needed));
        if below is Done {
            lemma_scalars_end(below->Done_0, correlated, predicates);
            law_first_trouble_decides(below->Done_0, correlated, predicates);
        }
    }
}

/// Over two inputs there is a plan exactly if there is one for the left input and then one for the
/// right. What ends an input first ends the plan.
pub proof fn law_binary_ends(
    state: FlattenState,
    correlated: Seq<usize>,
    plan: SExprView,
    need_cross_join: bool,
)
    requires
        outer_columns(plan) != Set::<usize>::empty(),
        plan.plan is Join || plan.plan is UnionAll,
    ensures
        ({
            let needed = need_cross_join || match plan.plan {
                RelOperatorView::Join(join) => conditions_use_one(join.left_conditions, correlated)
                    || conditions_use_one(join.right_conditions, correlated) || conditions_use_one(
                    join.non_equi_conditions,
                    correlated,
                ),
                RelOperatorView::UnionAll(pairs) => touches(union_used_columns(pairs), correlated),
                _ => false,
            };
            let run = flatten(state, correlated, plan, need_cross_join);
            match flatten(state, correlated, plan.children[0], needed) {
                Run::Done(mid, _) => match flatten(mid, correlated, plan.children[1], needed) {
                    Run::Done(next, _) => run matches Run::Done(after, _) && after == next,
                    other => run == other,
                },
                other => run == other,
            }
        }),
{
    let run = flatten(state, correlated, plan, need_cross_join);
    assert(relational_prop(plan) is Ok);
    match plan.plan {
        RelOperatorView::Join(join) => {
            let need = need_cross_join || touches(join_used_columns(join), correlated);
            lemma_join_touches(join, correlated);
            let operator = RelOperatorView::Join(
                JoinView { from_correlated_subquery: false, contain_runtime_filter: false, ..join },
            );
            assert(run == flatten_children(state, correlated, plan, need, operator));
            let left = flatten_child(state, correlated, plan, 0, need);
            assert(left == flatten(state, correlated, plan.children[0], need));
            if left is Done {
                let right = flatten_child(left->Done_0, correlated, plan, 1, need);
                assert(right == flatten(left->Done_0, correlated, plan.children[1], need));
            }
        },
        RelOperatorView::UnionAll(pairs) => {
            let need = need_cross_join || touches(union_used_columns(pairs), correlated);
            assert(run == flatten_children(state, correlated, plan, need, plan.plan));
            let left = flatten_child(state, correlated, plan, 0, need);
            assert(left == flatten(state, correlated, plan.children[0], need));
            if left is Done {
                let right = flatten_child(left->Done_0, correlated, plan, 1, need);
                assert(right == flatten(left->Done_0, correlated, plan.children[1], need));
            }
        },
        _ => {},
    }
}

proof fn lemma_add_derived_some(
    columns: Seq<ColumnEntryView>,
    derived: Seq<(usize, usize)>,
    correlated: Seq<usize>,
)
    ensures
        add_derived_columns(columns, derived, correlated) is Some <==> forall|i: int|
            0 <= i < correlated.len() ==> #[trigger] correlated[i] < columns.len() + i,
        add_derived_columns(columns, derived, correlated) matches Some((known, _)) ==> known.len()
            == columns.len() + correlated.len(),
    decreases correlated.len(),
{
    if correlated.len() > 0 {
        let front = correlated.drop_last();
        lemma_add_derived_some(columns, derived, front);
        if forall|i: int|
            0 <= i < correlated.len() ==> #[trigger] correlated[i] < columns.len() + i {
            assert forall|i: int| 0 <= i < front.len() implies #[trigger] front[i] < columns.len()
                + i by {
                assert(front[i] == correlated[i]);
            }
            assert(correlated[correlated.len() - 1] < columns.len() + correlated.len() - 1);
        }
        if add_derived_columns(columns, derived, correlated) is Some {
            assert forall|i: int| 0 <= i < correlated.len() implies #[trigger] correlated[i]
                < columns.len() + i by {
                if i < front.len() {
                    assert(front[i] == correlated[i]);
                }
            }
        }
    }
}

/// A cross join with the outer table is made exactly if the correlated columns are of a table and
/// each is a column of the query when its turn comes.
pub proof fn law_cross_join_ends(state: FlattenState, correlated: Seq<usize>, plan: SExprView)
    requires
        relational_prop(plan) is Ok,
        outer_columns(plan) == Set::<usize>::empty(),
    ensures
        flatten(state, correlated, plan, true) is Done <==> table_of(state.columns, correlated)
            is Some && forall|i: int|
            0 <= i < correlated.len() ==> #[trigger] correlated[i] < state.columns.len() + i,
        !(flatten(state, correlated, plan, true) is Failed),
{
    lemma_add_derived_some(state.columns, state.derived, correlated);
}

/// What a step returned and the state that it left are what its end says, nothing less.
pub proof fn law_ended<T>(state: FlattenState, result: Result<T, Stop>)
    ensures
        ended(state, result) matches Run::Done(after, value) ==> after == state && result == Ok::<
            T,
            Stop,
        >(value),
        ended(state, result) matches Run::Failed(after, e) ==> after == state && result == Err::<
            T,
            Stop,
        >(Stop::Failed(e)),
        ended(state, result) is Undefined ==> result == Err::<T, Stop>(Stop::Undefined),
{
}

/// The state of a rewriter is made of its columns, its derived columns and what was found out.
pub proof fn law_rewriter_state(rewriter: SubqueryRewriter, info: FlattenInfo)
    ensures
        rewriter.state(info).columns == rewriter.metadata@,
        rewriter.state(info).derived == rewriter.derived_columns@,
        rewriter.state(info).from_count_func == info.from_count_func,
{
}

} // verus!
