//! On which inputs flattening and decorrelating find every column that they need.

use vstd::prelude::*;

use crate::column_map::{has_key, lemma_lookup_has_key, lookup, values_of};
use crate::column_set::touches;
use crate::flatten_laws::{
    equates_columns, grown, law_cross_join_gives_derived, law_flatten_adds_columns,
    lemma_add_derived_columns, lemma_bind_entries, lemma_equation_columns, lemma_known_when_grown,
    one_sided_equation,
};
use crate::join_predicate::func_name;
use crate::laws::{lemma_flatten_aggregates_frame, outer_columns, state_after};
use crate::metadata::{lemma_table_of_prefix, table_of, ColumnEntryView};
use crate::model::{
    add_derived_columns, aggregate_used_columns, all_known, enter_filter, equate, equate_all,
    eval_used_columns, flatten, flatten_aggregates, flatten_child, flatten_children, flatten_scalar,
    flatten_scalars, flatten_under, Equated, FlattenState, Run,
};
use crate::plan::{
    item_scalars, items_used_columns, join_used_columns, union_used_columns, JoinView,
    RelOperatorView, ScalarItemView,
};
use crate::property::relational_prop;
use crate::s_expr::SExprView;
use crate::scalar::{used_by_all, used_columns, ComparisonOp, ScalarView};

verus! {

/// Whether a predicate, if it is an equation with a correlated column in it, has two sides, which
/// are not two correlated columns, and a column on a side is one of the first `known`.
pub open spec fn proper_equation(predicate: ScalarView, correlated: Seq<usize>, known: nat) -> bool {
    &&& one_sided_equation(predicate, correlated)
    &&& equates_columns(predicate) && touches(used_columns(predicate), correlated) ==> forall|
        c: usize,
    | #[trigger]
        used_columns(predicate).contains(c) ==> c < known
}

/// Whether each filter of the plan has proper equations alone.
pub open spec fn equations_proper(plan: SExprView, correlated: Seq<usize>, known: nat) -> bool
    decreases plan,
{
    &&& plan.plan matches RelOperatorView::Filter(filter) ==> forall|i: int|
        0 <= i < filter.predicates.len() ==> proper_equation(
            #[trigger] filter.predicates[i],
            correlated,
            known,
        )
    &&& forall|i: int|
        0 <= i < plan.children.len() ==> equations_proper(
            #[trigger] plan.children[i],
            correlated,
            known,
        )
}

/// Whether each correlated column among `used` has a derived column.
pub open spec fn all_bound(
    derived: Seq<(usize, usize)>,
    correlated: Seq<usize>,
    used: Set<usize>,
) -> bool {
    forall|c: usize| #[trigger]
        used.contains(c) && correlated.contains(c) ==> has_key(derived, c)
}

proof fn lemma_flatten_scalar_defined(
    columns: Seq<ColumnEntryView>,
    derived: Seq<(usize, usize)>,
    correlated: Seq<usize>,
    scalar: ScalarView,
)
    requires
        all_known(columns, values_of(derived)),
        all_bound(derived, correlated, used_columns(scalar)),
    ensures
        !(flatten_scalar(columns, derived, correlated, scalar) is Undefined),
    decreases scalar,
{
    match scalar {
        ScalarView::BoundColumnRef(column) => {
            let c = column.column.index;
            assert(used_columns(scalar).contains(c));
            if correlated.contains(c) {
                lemma_lookup_has_key(derived, c);
                let v = lookup(derived, c)->0;
                let i = choose|i: int|
                    0 <= i < values_of(derived).len() && values_of(derived)[i] == v;
                assert(values_of(derived)[i] < columns.len());
            }
        },
        ScalarView::AggregateFunction(agg) => {
            lemma_flatten_scalars_defined(columns, derived, correlated, agg.args);
        },
        ScalarView::FunctionCall(func) => {
            lemma_flatten_scalars_defined(columns, derived, correlated, func.arguments);
        },
        ScalarView::CastExpr(cast) => {
            lemma_flatten_scalar_defined(columns, derived, correlated, *cast.argument);
        },
        _ => {},
    }
}

proof fn lemma_flatten_scalars_defined(
    columns: Seq<ColumnEntryView>,
    derived: Seq<(usize, usize)>,
    correlated: Seq<usize>,
    scalars: Seq<ScalarView>,
)
    requires
        all_known(columns, values_of(derived)),
        all_bound(derived, correlated, used_by_all(scalars)),
    ensures
        !(flatten_scalars(columns, derived, correlated, scalars) is Undefined),
    decreases scalars,
{
    if scalars.len() > 0 {
        let front = scalars.drop_last();
        assert forall|c: usize| #[trigger]
            used_by_all(front).contains(c) && correlated.contains(c) implies has_key(
            derived,
            c,
        ) by {
            assert(used_by_all(scalars).contains(c));
        }
        assert forall|c: usize| #[trigger]
            used_columns(scalars.last()).contains(c) && correlated.contains(c) implies has_key(
            derived,
            c,
        ) by {
            assert(used_by_all(scalars).contains(c));
        }
        lemma_flatten_scalars_defined(columns, derived, correlated, front);
        lemma_flatten_scalar_defined(columns, derived, correlated, scalars.last());
    }
}

proof fn lemma_flatten_aggregates_defined(
    state: FlattenState,
    correlated: Seq<usize>,
    items: Seq<ScalarItemView>,
)
    requires
        all_known(state.columns, values_of(state.derived)),
        all_bound(state.derived, correlated, items_used_columns(items)),
    ensures
        !(flatten_aggregates(state, correlated, items) is Undefined),
    decreases items.len(),
{
    if items.len() > 0 {
        let front = items.drop_last();
        let scalars = item_scalars(items);
        assert(scalars.drop_last() =~= item_scalars(front));
        assert(scalars.last() == items.last().scalar);
        assert forall|c: usize| #[trigger]
            items_used_columns(front).contains(c) && correlated.contains(c) implies has_key(
            state.derived,
            c,
        ) by {
            assert(items_used_columns(items).contains(c));
        }
        assert forall|c: usize| #[trigger]
            used_columns(items.last().scalar).contains(c) && correlated.contains(
                c,
            ) implies has_key(state.derived, c) by {
            assert(items_used_columns(items).contains(c));
        }
        lemma_flatten_aggregates_defined(state, correlated, front);
        lemma_flatten_aggregates_frame(state, correlated, front);
        lemma_flatten_scalar_defined(
            state.columns,
            state.derived,
            correlated,
            items.last().scalar,
        );
    }
}

/// Among proper equations every side is there, and each correlated column that they refer to has
/// a derived column once they were all looked at.
proof fn lemma_equate_all_defined(
    derived: Seq<(usize, usize)>,
    correlated: Seq<usize>,
    predicates: Seq<ScalarView>,
    known: nat,
)
    requires
        forall|i: int|
            0 <= i < predicates.len() ==> proper_equation(
                #[trigger] predicates[i],
                correlated,
                known,
            ),
    ensures
        !(equate_all(derived, correlated, predicates) is Undefined),
        equate_all(derived, correlated, predicates) matches Equated::All(after) ==> {
            &&& all_bound(after, correlated, used_by_all(predicates))
            &&& forall|k: usize| #[trigger] has_key(derived, k) ==> has_key(after, k)
            &&& forall|v: usize| #[trigger]
                values_of(after).contains(v) ==> values_of(derived).contains(v) || v < known
        },
    decreases predicates.len(),
{
    if predicates.len() > 0 {
        let front = predicates.drop_last();
        let last = predicates.last();
        assert forall|i: int| 0 <= i < front.len() implies proper_equation(
            #[trigger] front[i],
            correlated,
            known,
        ) by {
            assert(front[i] == predicates[i]);
        }
        assert(proper_equation(predicates[predicates.len() - 1], correlated, known));
        lemma_equate_all_defined(derived, correlated, front, known);
        match equate_all(derived, correlated, front) {
            Equated::All(next) => {
                lemma_equate_defined(next, correlated, last, known);
                match equate(next, correlated, last) {
                    Equated::All(after) => {
                        assert forall|c: usize| #[trigger]
                            used_by_all(predicates).contains(c) && correlated.contains(
                                c,
                            ) implies has_key(after, c) by {
                            if used_by_all(front).contains(c) {
                                assert(has_key(next, c));
                            } else {
                                assert(used_columns(last).contains(c));
                            }
                        }
                    },
                    _ => {},
                }
            },
            _ => {},
        }
    }
}

proof fn lemma_equate_defined(
    derived: Seq<(usize, usize)>,
    correlated: Seq<usize>,
    predicate: ScalarView,
    known: nat,
)
    requires
        proper_equation(predicate, correlated, known),
    ensures
        !(equate(derived, correlated, predicate) is Undefined),
        equate(derived, correlated, predicate) matches Equated::All(after) ==> {
            &&& all_bound(after, correlated, used_columns(predicate))
            &&& forall|k: usize| #[trigger] has_key(derived, k) ==> has_key(after, k)
            &&& forall|v: usize| #[trigger]
                values_of(after).contains(v) ==> values_of(derived).contains(v) || v < known
        },
{
    if touches(used_columns(predicate), correlated) {
        match predicate {
            ScalarView::FunctionCall(func) => {
                if func.func_name == func_name(ComparisonOp::Equal) {
                    match (func.arguments[0], func.arguments[1]) {
                        (
                            ScalarView::BoundColumnRef(left),
                            ScalarView::BoundColumnRef(right),
                        ) => {
                            let l = left.column.index;
                            let r = right.column.index;
                            lemma_bind_entries(derived, l, r);
                            lemma_bind_entries(derived, r, l);
                            lemma_equation_columns(func.arguments);
                            assert(used_columns(predicate).contains(l));
                            assert(used_columns(predicate).contains(r));
                        },
                        _ => {},
                    }
                }
            },
            _ => {},
        }
    } else {
        assert(all_bound(derived, correlated, used_columns(predicate)));
    }
}

proof fn lemma_table_of_grown(
    old: Seq<ColumnEntryView>,
    new: Seq<ColumnEntryView>,
    correlated: Seq<usize>,
)
    requires
        grown(old, new, correlated),
        table_of(old, correlated) is Some,
    ensures
        table_of(new, correlated) == table_of(old, correlated),
{
    assert(new.take(old.len() as int) =~= old);
    lemma_table_of_prefix(new, correlated, old.len() as int);
}

/// Flattening finds every column that it needs, where the correlated columns are columns of a
/// table, the derived columns are columns of the query and the equations in filters are proper.
/// Each correlated column that the plan takes from around it then has a derived column, which is a
/// column of the query, and a correlated column that had one keeps one.
pub proof fn law_flatten_defined(
    state: FlattenState,
    correlated: Seq<usize>,
    plan: SExprView,
    need_cross_join: bool,
    known: nat,
)
    requires
        table_of(state.columns, correlated) is Some,
        all_known(state.columns, correlated),
        all_known(state.columns, values_of(state.derived)),
        known <= state.columns.len(),
        equations_proper(plan, correlated, known),
    ensures
        !(flatten(state, correlated, plan, need_cross_join) is Undefined),
        flatten(state, correlated, plan, need_cross_join) matches Run::Done(next, _) ==> {
            &&& all_known(next.columns, values_of(next.derived))
            &&& all_bound(next.derived, correlated, outer_columns(plan))
            &&& forall|c: usize| #[trigger]
                correlated.contains(c) && has_key(state.derived, c) ==> has_key(next.derived, c)
        },
    decreases plan, 1nat,
{
    let run = flatten(state, correlated, plan, need_cross_join);
    if relational_prop(plan) is Ok {
        if outer_columns(plan) == Set::<usize>::empty() {
            lemma_cross_defined(state, correlated);
        } else if plan.children.len() > 0 {
            let child = plan.children[0];
            assert(equations_proper(child, correlated, known));
            match plan.plan {
                RelOperatorView::EvalScalar(items) => {
                    let need = need_cross_join || touches(eval_used_columns(items), correlated);
                    let below = flatten(state, correlated, child, need);
                    assert(below == flatten_child(state, correlated, plan, 0, need));
                    law_flatten_defined(state, correlated, child, need, known);
                    if below is Done {
                        let next = below->Done_0;
                        lemma_bound_below(
                            state,
                            correlated,
                            child,
                            need,
                            items_used_columns(items),
                            eval_used_columns(items),
                        );
                        lemma_flatten_scalars_defined(
                            next.columns,
                            next.derived,
                            correlated,
                            item_scalars(items),
                        );
                        assert(all_bound(next.derived, correlated, outer_columns(plan)));
                    }
                },
                RelOperatorView::Filter(filter) => {
                    lemma_filter_defined(state, correlated, plan, need_cross_join, known);
                },
                RelOperatorView::Join(join) => {
                    let need = need_cross_join || touches(join_used_columns(join), correlated);
                    let operator = RelOperatorView::Join(
                        JoinView {
                            from_correlated_subquery: false,
                            contain_runtime_filter: false,
                            ..join
                        },
                    );
                    assert(run == flatten_children(state, correlated, plan, need, operator));
                    lemma_children_defined(state, correlated, plan, need, operator, known);
                },
                RelOperatorView::Aggregate(aggregate) => {
                    let used = aggregate_used_columns(aggregate);
                    let need = need_cross_join || touches(used, correlated);
                    let below = flatten(state, correlated, child, need);
                    assert(below == flatten_child(state, correlated, plan, 0, need));
                    law_flatten_defined(state, correlated, child, need, known);
                    if below is Done {
                        let next = below->Done_0;
                        lemma_bound_below(
                            state,
                            correlated,
                            child,
                            need,
                            items_used_columns(aggregate.group_items),
                            used,
                        );
                        lemma_bound_below(
                            state,
                            correlated,
                            child,
                            need,
                            items_used_columns(aggregate.aggregate_functions),
                            used,
                        );
                        lemma_flatten_scalars_defined(
                            next.columns,
                            next.derived,
                            correlated,
                            item_scalars(aggregate.group_items),
                        );
                        lemma_flatten_aggregates_defined(
                            next,
                            correlated,
                            aggregate.aggregate_functions,
                        );
                        lemma_flatten_aggregates_frame(
                            next,
                            correlated,
                            aggregate.aggregate_functions,
                        );
                        assert(all_bound(next.derived, correlated, outer_columns(plan)));
                    }
                },
                RelOperatorView::Sort(_, _) => {
                    let below = flatten(state, correlated, child, need_cross_join);
                    assert(below == flatten_child(state, correlated, plan, 0, need_cross_join));
                    assert(run == flatten_under(
                        state,
                        correlated,
                        plan,
                        need_cross_join,
                        plan.plan,
                    ));
                    law_flatten_defined(state, correlated, child, need_cross_join, known);
                },
                RelOperatorView::Limit(_) => {
                    let below = flatten(state, correlated, child, need_cross_join);
                    assert(below == flatten_child(state, correlated, plan, 0, need_cross_join));
                    assert(run == flatten_under(
                        state,
                        correlated,
                        plan,
                        need_cross_join,
                        plan.plan,
                    ));
                    law_flatten_defined(state, correlated, child, need_cross_join, known);
                },
                RelOperatorView::UnionAll(pairs) => {
                    let need = need_cross_join || touches(union_used_columns(pairs), correlated);
                    assert(run == flatten_children(state, correlated, plan, need, plan.plan));
                    lemma_children_defined(state, correlated, plan, need, plan.plan, known);
                },
                RelOperatorView::Scan(_) => {},
                RelOperatorView::Opaque(_) => {},
            }
        }
    }
}

proof fn lemma_cross_defined(state: FlattenState, correlated: Seq<usize>)
    requires
        all_known(state.columns, correlated),
        all_known(state.columns, values_of(state.derived)),
    ensures
        add_derived_columns(state.columns, state.derived, correlated) matches Some((columns, derived))
            && all_known(columns, values_of(derived)) && forall|c: usize| #[trigger]
            correlated.contains(c) ==> has_key(derived, c),
{
    lemma_add_derived_columns(state.columns, state.derived, correlated);
    let (columns, derived) = add_derived_columns(state.columns, state.derived, correlated)->0;
    assert forall|i: int| 0 <= i < values_of(derived).len() implies #[trigger] values_of(derived)[i]
        < columns.len() by {
        let v = values_of(derived)[i];
        assert(values_of(derived).contains(v));
        if values_of(state.derived).contains(v) {
            let k = choose|k: int|
                0 <= k < values_of(state.derived).len() && values_of(state.derived)[k] == v;
            assert(values_of(state.derived)[k] < state.columns.len());
        }
    }
}

/// Over an input that is flat, each correlated column among `used` has a derived column: either
/// none is there, or the input was joined with the table of the correlated columns.
proof fn lemma_bound_below(
    state: FlattenState,
    correlated: Seq<usize>,
    child: SExprView,
    need: bool,
    used: Set<usize>,
    named: Set<usize>,
)
    requires
        flatten(state, correlated, child, need) is Done,
        used.subset_of(named),
        touches(named, correlated) ==> need,
    ensures
        all_bound(state_after(flatten(state, correlated, child, need)).derived, correlated, used),
{
    if need {
        law_cross_join_gives_derived(state, correlated, child);
    } else {
        assert forall|c: usize| #[trigger] used.contains(c) && correlated.contains(c) implies false by {
            assert(named.contains(c));
        }
    }
}

proof fn lemma_filter_defined(
    state: FlattenState,
    correlated: Seq<usize>,
    plan: SExprView,
    need_cross_join: bool,
    known: nat,
)
    requires
        table_of(state.columns, correlated) is Some,
        all_known(state.columns, correlated),
        all_known(state.columns, values_of(state.derived)),
        known <= state.columns.len(),
        equations_proper(plan, correlated, known),
        relational_prop(plan) is Ok,
        outer_columns(plan) != Set::<usize>::empty(),
        plan.plan is Filter,
        plan.children.len() > 0,
    ensures
        !(flatten(state, correlated, plan, need_cross_join) is Undefined),
        flatten(state, correlated, plan, need_cross_join) matches Run::Done(next, _) ==> {
            &&& all_known(next.columns, values_of(next.derived))
            &&& all_bound(next.derived, correlated, outer_columns(plan))
            &&& forall|c: usize| #[trigger]
                correlated.contains(c) && has_key(state.derived, c) ==> has_key(next.derived, c)
        },
    decreases plan, 0nat,
{
    let filter = plan.plan->Filter_0;
    let child = plan.children[0];
    assert(equations_proper(child, correlated, known));
    lemma_equate_all_defined(state.derived, correlated, filter.predicates, known);
    let entered = enter_filter(state, correlated, filter.predicates, need_cross_join);
    assert(entered is Done);
    let inner = entered->Done_0;
    let need = entered->Done_1;
    assert(all_known(state.columns, values_of(inner.derived))) by {
        assert forall|i: int| 0 <= i < values_of(inner.derived).len() implies #[trigger] values_of(
            inner.derived,
        )[i] < state.columns.len() by {
            let v = values_of(inner.derived)[i];
            assert(values_of(inner.derived).contains(v));
            if values_of(state.derived).contains(v) {
                let k = choose|k: int|
                    0 <= k < values_of(state.derived).len() && values_of(state.derived)[k] == v;
                assert(values_of(state.derived)[k] < state.columns.len());
            }
        }
    }
    let below = flatten(inner, correlated, child, need);
    assert(below == flatten_child(inner, correlated, plan, 0, need));
    law_flatten_defined(inner, correlated, child, need, known);
    if below is Done {
        let next = below->Done_0;
        if need {
            law_cross_join_gives_derived(inner, correlated, child);
        } else {
            assert(all_bound(inner.derived, correlated, used_by_all(filter.predicates)));
        }
        assert forall|c: usize| #[trigger]
            used_by_all(filter.predicates).contains(c) && correlated.contains(c) implies has_key(
            next.derived,
            c,
        ) by {
            if !need {
                assert(has_key(inner.derived, c));
            }
        }
        lemma_flatten_scalars_defined(
            next.columns,
            next.derived,
            correlated,
            filter.predicates,
        );
        assert forall|c: usize| #[trigger]
            outer_columns(plan).contains(c) && correlated.contains(c) implies has_key(
            next.derived,
            c,
        ) by {
            assert(outer_columns(child).contains(c) || used_by_all(filter.predicates).contains(c));
        }
    }
}

proof fn lemma_children_defined(
    state: FlattenState,
    correlated: Seq<usize>,
    plan: SExprView,
    need: bool,
    operator: RelOperatorView,
    known: nat,
)
    requires
        table_of(state.columns, correlated) is Some,
        all_known(state.columns, correlated),
        all_known(state.columns, values_of(state.derived)),
        known <= state.columns.len(),
        equations_proper(plan, correlated, known),
        relational_prop(plan) is Ok,
        plan.plan matches RelOperatorView::Join(join) ==> (touches(
            join_used_columns(join),
            correlated,
        ) ==> need),
        plan.plan is Join || plan.plan is UnionAll,
    ensures
        !(flatten_children(state, correlated, plan, need, operator) is Undefined),
        flatten_children(state, correlated, plan, need, operator) matches Run::Done(next, _) ==> {
            &&& all_known(next.columns, values_of(next.derived))
            &&& all_bound(next.derived, correlated, outer_columns(plan))
            &&& forall|c: usize| #[trigger]
                correlated.contains(c) && has_key(state.derived, c) ==> has_key(next.derived, c)
        },
    decreases plan, 0nat,
{
    let first = plan.children[0];
    let second = plan.children[1];
    assert(relational_prop(first) is Ok);
    assert(relational_prop(second) is Ok);
    let left = flatten_child(state, correlated, plan, 0, need);
    assert(left == flatten(state, correlated, first, need));
    law_flatten_defined(state, correlated, first, need, known);
    if left is Done {
        let next = left->Done_0;
        law_flatten_adds_columns(state, correlated, first, need);
        lemma_table_of_grown(state.columns, next.columns, correlated);
        lemma_known_when_grown(state.columns, next.columns, correlated, correlated);
        let right = flatten_child(next, correlated, plan, 1, need);
        assert(right == flatten(next, correlated, second, need));
        law_flatten_defined(next, correlated, second, need, known);
        if right is Done {
            let last = right->Done_0;
            if need {
                law_cross_join_gives_derived(next, correlated, second);
            }
            assert forall|c: usize| #[trigger]
                outer_columns(plan).contains(c) && correlated.contains(c) implies has_key(
                last.derived,
                c,
            ) by {
                if outer_columns(first).contains(c) {
                    assert(has_key(next.derived, c));
                } else if !outer_columns(second).contains(c) {
                    assert(join_used_columns(plan.plan->Join_0).contains(c));
                }
            }
        }
    }
}

} // verus!
