//! What the join that a subquery becomes is made of.

use vstd::prelude::*;

use crate::column_map::{has_key, lemma_lookup_has_key, lookup};
use crate::column_set::touches;
use crate::error::ErrorCode;
use crate::join_predicate::{classify, comparison_named, reversed, JoinPredicateView};
use crate::laws::{outer_columns, output_columns};
use crate::metadata::ColumnSource;
use crate::model::{
    decorrelate, decorrelate_simple, equi_defined, flatten, inner_refs, is_equi, is_non_equi,
    outer_refs, FlattenState, Run,
};
use crate::names::subquery_column_name;
use crate::operator_laws::plain_reference;
use crate::plan::{
    item_scalars, items_used_columns, FilterView, JoinType, JoinView, RelOperatorView,
};
use crate::property::relational_prop;
use crate::rewriter::UnnestResult;
use crate::s_expr::SExprView;
use crate::scalar::{
    used_columns, BoundColumnRefView, ColumnBindingView, ComparisonOp, ScalarView, SubqueryExpr,
};
use crate::scalar_laws::{
    compares, law_comparison_names, law_reversed_exchanges_sides, law_used_by_all_is_used_by_one,
    spells,
};
use crate::types::{DataType, Span, Visibility};

verus! {

/// Whether the join equates, for each correlated column at its place, that column on the left with
/// the derived column which the state has for that same column on the right.
pub open spec fn equates_derived(
    state: FlattenState,
    correlated: Seq<usize>,
    span: Span,
    join: JoinView,
) -> bool {
    &&& join.left_conditions.len() == correlated.len()
    &&& join.right_conditions.len() == correlated.len()
    &&& forall|i: int|
        0 <= i < correlated.len() ==> {
            let c = #[trigger] correlated[i];
            let v = lookup(state.derived, c)->0;
            &&& lookup(state.derived, c) is Some
            &&& join.left_conditions[i] == plain_reference(
                state.columns,
                span,
                state.columns[c as int].name,
                c,
            )
            &&& join.right_conditions[i] == plain_reference(
                state.columns,
                span,
                state.columns[v as int].name,
                v,
            )
        }
}

/// Whether each correlated column and its derived column are columns of the query.
pub open spec fn all_derived(state: FlattenState, correlated: Seq<usize>) -> bool {
    forall|i: int|
        0 <= i < correlated.len() ==> {
            let c = #[trigger] correlated[i];
            &&& c < state.columns.len()
            &&& has_key(state.derived, c)
            &&& lookup(state.derived, c)->0 < state.columns.len()
        }
}

/// Whether a join compares what an `ANY` subquery is compared with, on the left, with the column
/// that the subquery gives, on the right, by the comparison of the subquery, and has no other
/// condition besides its equalities.
pub open spec fn compares_output(subquery: SubqueryExpr, join: JoinView) -> bool {
    let output = subquery.output_column;
    &&& join.non_equi_conditions.len() == 1
    &&& join.non_equi_conditions[0] matches ScalarView::FunctionCall(func) && {
        &&& subquery.compare_op matches Some(op) && spells(func.func_name, op)
        &&& func.span == subquery.span
        &&& func.params.len() == 0
        &&& func.arguments.len() == 2
        &&& subquery.child_expr matches Some(child) && func.arguments[0] == child@
        &&& func.arguments[1] == ScalarView::BoundColumnRef(
            BoundColumnRefView {
                span: subquery.span,
                column: ColumnBindingView {
                    database_name: None,
                    table_name: None,
                    table_index: None,
                    column_name: subquery_column_name(output.index),
                    index: output.index,
                    data_type: *output.data_type,
                    visibility: Visibility::Visible,
                },
            },
        )
    }
}

/// Whether the mark of a subquery goes to the column that the query has for it or else to a new
/// one behind the columns, called `marker`, of truth values with `NULL`.
pub open spec fn marks(
    before: FlattenState,
    after: FlattenState,
    subquery: SubqueryExpr,
    marker_index: usize,
) -> bool {
    &&& after.derived == before.derived
    &&& after.from_count_func == before.from_count_func
    &&& match subquery.projection_index {
        Some(index) => marker_index == index && after.columns == before.columns,
        None => {
            let n = before.columns.len();
            &&& after.columns.len() == n + 1
            &&& before.columns.is_prefix_of(after.columns)
            &&& n <= usize::MAX ==> marker_index == n && after.columns[n as int].column_index == n
            &&& after.columns[n as int].source == ColumnSource::Derived
            &&& after.columns[n as int].name == seq!['m', 'a', 'r', 'k', 'e', 'r']
            &&& after.columns[n as int].data_type == DataType::Nullable(
                Box::new(DataType::Boolean),
            )
        },
    }
}

/// Whether a plan is a join, made for a correlated subquery, of the plan around the subquery with
/// the flat subquery, that equates each correlated column with its derived column.
pub open spec fn joins_flat(
    next: FlattenState,
    left: SExprView,
    flat: SExprView,
    subquery: SubqueryExpr,
    join: SExprView,
) -> bool {
    &&& join.plan is Join
    &&& join.children == seq![left, flat]
    &&& join.plan->Join_0.from_correlated_subquery
    &&& !join.plan->Join_0.contain_runtime_filter
    &&& equates_derived(
        next,
        subquery.outer_columns.order(),
        subquery.span,
        join.plan->Join_0,
    )
}

proof fn lemma_equi_defined(state: FlattenState, correlated: Seq<usize>)
    ensures
        equi_defined(state.columns, state.derived, correlated) <==> all_derived(state, correlated),
{
    if equi_defined(state.columns, state.derived, correlated) {
        assert forall|i: int| 0 <= i < correlated.len() implies {
            let c = #[trigger] correlated[i];
            &&& c < state.columns.len()
            &&& has_key(state.derived, c)
            &&& lookup(state.derived, c)->0 < state.columns.len()
        } by {
            lemma_lookup_has_key(state.derived, correlated[i]);
        }
    }
    if all_derived(state, correlated) {
        assert forall|i: int| 0 <= i < correlated.len() implies {
            &&& #[trigger] correlated[i] < state.columns.len()
            &&& lookup(state.derived, correlated[i]) is Some
            &&& lookup(state.derived, correlated[i])->0 < state.columns.len()
        } by {
            lemma_lookup_has_key(state.derived, correlated[i]);
        }
    }
}

proof fn lemma_equates_derived(state: FlattenState, subquery: SubqueryExpr, join: JoinView)
    requires
        equi_defined(state.columns, state.derived, subquery.outer_columns.order()),
        join.left_conditions == outer_refs(
            state.columns,
            subquery.span,
            subquery.outer_columns.order(),
        ),
        join.right_conditions == inner_refs(
            state.columns,
            state.derived,
            subquery.span,
            subquery.outer_columns.order(),
        ),
    ensures
        equates_derived(state, subquery.outer_columns.order(), subquery.span, join),
{
}

/// What a scalar subquery becomes: a single join with the flat subquery, on each correlated column
/// equal to its derived column and on nothing else, exactly if the subquery can be flattened and
/// each correlated column then has a derived column.
pub proof fn law_single_join(
    state: FlattenState,
    left: SExprView,
    subquery: SubqueryExpr,
    is_conjunctive_predicate: bool,
)
    requires
        subquery.typ is Scalar,
    ensures
        ({
            let run = decorrelate(state, left, subquery, is_conjunctive_predicate);
            let correlated = subquery.outer_columns.order();
            match flatten(state, correlated, subquery.subquery@, false) {
                Run::Done(next, flat) => {
                    &&& run is Done <==> all_derived(next, correlated)
                    &&& !(run is Failed)
                    &&& run matches Run::Done(after, (join, result)) ==> {
                        &&& after == next
                        &&& result == UnnestResult::SingleJoin
                        &&& joins_flat(next, left, flat, subquery, join)
                        &&& join.plan->Join_0.join_type == JoinType::Single
                        &&& join.plan->Join_0.marker_index is None
                        &&& join.plan->Join_0.non_equi_conditions.len() == 0
                    }
                },
                Run::Failed(next, e) => run == Run::<(SExprView, UnnestResult)>::Failed(next, e),
                Run::Undefined => run is Undefined,
            }
        }),
{
    let correlated = subquery.outer_columns.order();
    if let Run::Done(next, flat) = flatten(state, correlated, subquery.subquery@, false) {
        lemma_equi_defined(next, correlated);
        if equi_defined(next.columns, next.derived, correlated) {
            let join = decorrelate(state, left, subquery, is_conjunctive_predicate)->Done_1.0;
            lemma_equates_derived(next, subquery, join.plan->Join_0);
        }
    }
}

/// What an `ANY` subquery and a test for existence that is not simple become: a mark join with the
/// flat subquery, on each correlated column equal to its derived column. That of an `ANY` subquery
/// has the comparison for a condition, and that of a test for existence nothing else.
pub proof fn law_mark_join(
    state: FlattenState,
    left: SExprView,
    subquery: SubqueryExpr,
    is_conjunctive_predicate: bool,
)
    requires
        subquery.typ is Any || ((subquery.typ is Exists || subquery.typ is NotExists) && (
        is_conjunctive_predicate ==> decorrelate_simple(left, subquery) == Ok::<
            Option<SExprView>,
            ErrorCode,
        >(None))),
    ensures
        ({
            let run = decorrelate(state, left, subquery, is_conjunctive_predicate);
            let correlated = subquery.outer_columns.order();
            match flatten(state, correlated, subquery.subquery@, false) {
                Run::Done(next, flat) => {
                    &&& run is Done <==> all_derived(next, correlated) && (subquery.typ is Any
                        ==> subquery.child_expr is Some && subquery.compare_op is Some)
                    &&& !(run is Failed)
                    &&& run matches Run::Done(after, (join, result)) ==> {
                        &&& result matches UnnestResult::MarkJoin { marker_index } && marks(
                            next,
                            after,
                            subquery,
                            marker_index,
                        ) && join.plan->Join_0.marker_index == Some(marker_index)
                        &&& joins_flat(next, left, flat, subquery, join)
                        &&& join.plan->Join_0.join_type == JoinType::RightMark
                        &&& if subquery.typ is Any {
                            compares_output(subquery, join.plan->Join_0)
                        } else {
                            join.plan->Join_0.non_equi_conditions.len() == 0
                        }
                    }
                },
                Run::Failed(next, e) => run == Run::<(SExprView, UnnestResult)>::Failed(next, e),
                Run::Undefined => run is Undefined,
            }
        }),
{
    reveal_strlit("marker");
    assert("marker"@ =~= seq!['m', 'a', 'r', 'k', 'e', 'r']);
    let correlated = subquery.outer_columns.order();
    if let Run::Done(next, flat) = flatten(state, correlated, subquery.subquery@, false) {
        lemma_equi_defined(next, correlated);
        if equi_defined(next.columns, next.derived, correlated) {
            let run = decorrelate(state, left, subquery, is_conjunctive_predicate);
            if run is Done {
                let join = run->Done_1.0;
                lemma_equates_derived(next, subquery, join.plan->Join_0);
                if subquery.typ is Any {
                    law_comparison_names(Seq::empty(), subquery.compare_op->0);
                }
            }
        }
    }
}

/// Whether a test for existence is a conjunct of a filter matters only if it is simple: then it
/// becomes the simple join, and nothing else changes. For other subqueries it does not matter, and
/// an `ALL` subquery becomes nothing.
pub proof fn law_conjuncts(state: FlattenState, left: SExprView, subquery: SubqueryExpr)
    ensures
        subquery.typ is Exists || subquery.typ is NotExists ==> match decorrelate_simple(
            left,
            subquery,
        ) {
            Ok(Some(join)) => decorrelate(state, left, subquery, true) == Run::Done(
                state,
                (join, UnnestResult::SimpleJoin),
            ),
            Ok(None) => decorrelate(state, left, subquery, true) == decorrelate(
                state,
                left,
                subquery,
                false,
            ),
            Err(e) => decorrelate(state, left, subquery, true) == Run::<
                (SExprView, UnnestResult),
            >::Failed(state, e),
        },
        !(subquery.typ is Exists || subquery.typ is NotExists) ==> decorrelate(
            state,
            left,
            subquery,
            true,
        ) == decorrelate(state, left, subquery, false),
        subquery.typ is All ==> decorrelate(state, left, subquery, true) is Undefined,
{
}

/// Whether a predicate uses columns of the left input alone.
pub open spec fn is_left(predicate: ScalarView, left: Set<usize>) -> bool {
    forall|c: usize| #[trigger] used_columns(predicate).contains(c) ==> left.contains(c)
}

/// Whether a predicate that is not about the left input uses columns of the right input alone.
pub open spec fn is_right(predicate: ScalarView, left: Set<usize>, right: Set<usize>) -> bool {
    !is_left(predicate, left) && is_left(predicate, right)
}

/// Whether a predicate is a call of the equality function whose first argument is about one input
/// and whose second is about the other.
pub open spec fn splits(predicate: ScalarView, one: Set<usize>, other: Set<usize>) -> bool {
    predicate matches ScalarView::FunctionCall(func) && func.func_name == seq!['e', 'q']
        && func.arguments.len() == 2 && is_left(func.arguments[0], one) && is_left(
        func.arguments[1],
        other,
    )
}

/// Whether a predicate about neither input alone equates something of the left input with something
/// of the right.
pub open spec fn is_same(predicate: ScalarView, left: Set<usize>, right: Set<usize>) -> bool {
    &&& !is_left(predicate, left)
    &&& !is_right(predicate, left, right)
    &&& splits(predicate, left, right) || splits(predicate, right, left)
}

/// Whether a predicate is none of these.
pub open spec fn is_other(predicate: ScalarView, left: Set<usize>, right: Set<usize>) -> bool {
    !is_left(predicate, left) && !is_right(predicate, left, right) && !is_same(
        predicate,
        left,
        right,
    )
}

/// The sides of an equality, the one about the left input first.
pub open spec fn equality_sides(predicate: ScalarView, left: Set<usize>, right: Set<usize>) -> (
    ScalarView,
    ScalarView,
) {
    let arguments = predicate->FunctionCall_0.arguments;
    if splits(predicate, left, right) {
        (arguments[0], arguments[1])
    } else {
        (arguments[1], arguments[0])
    }
}

/// Whether a plan is `base` under a filter of the predicates, or `base` if there are none.
pub open spec fn is_filtered(
    plan: SExprView,
    predicates: Seq<ScalarView>,
    base: SExprView,
) -> bool {
    if predicates.len() == 0 {
        plan == base
    } else {
        plan == (SExprView {
            plan: RelOperatorView::Filter(FilterView { predicates, is_having: false }),
            children: seq![base],
        })
    }
}

/// Whether a plan computes columns over a filter over a table.
pub open spec fn is_simple(plan: SExprView) -> bool {
    &&& plan.plan is EvalScalar
    &&& plan.children.len() == 1
    &&& plan.children[0].plan is Filter
    &&& plan.children[0].children.len() == 1
    &&& plan.children[0].children[0].plan is Scan
    &&& plan.children[0].children[0].children.len() == 0
}

/// Whether the columns that a simple plan computes use an outer column.
pub open spec fn computes_from_outer(subquery: SubqueryExpr) -> bool {
    let items = subquery.subquery@.plan->EvalScalar_0;
    exists|i: int, c: usize|
        0 <= i < items.len() && #[trigger] subquery.outer_columns.order().contains(c)
            && used_columns((#[trigger] items[i]).scalar).contains(c)
}

/// The parts of the join that a simple subquery becomes: each predicate of the subquery's filter is
/// in the filter over the left input, in the filter over the right input, a pair of equality keys or
/// one of the other conditions, by the columns that it uses; and nothing else is there. The right
/// input is the subquery without its filter.
pub open spec fn simple_parts(input: SExprView, subquery: SubqueryExpr, join: SExprView) -> bool {
    let plan = subquery.subquery@;
    let predicates = plan.children[0].plan->Filter_0.predicates;
    let table = plan.children[0].children[0];
    let left = output_columns(input);
    let right = table.plan->Scan_0.columns;
    let keys = predicates.filter(|p: ScalarView| is_same(p, left, right));
    let after = join.plan->Join_0;
    &&& join.plan is Join
    &&& join.children.len() == 2
    &&& after.join_type == if subquery.typ is Exists {
        JoinType::LeftSemi
    } else {
        JoinType::LeftAnti
    }
    &&& after.marker_index is None
    &&& after.from_correlated_subquery
    &&& !after.contain_runtime_filter
    &&& is_filtered(
        join.children[0],
        predicates.filter(|p: ScalarView| is_left(p, left)),
        input,
    )
    &&& is_filtered(
        join.children[1],
        predicates.filter(|p: ScalarView| is_right(p, left, right)),
        SExprView { plan: plan.plan, children: seq![table] },
    )
    &&& after.left_conditions.len() == keys.len()
    &&& after.right_conditions.len() == keys.len()
    &&& forall|k: int|
        0 <= k < keys.len() ==> (after.left_conditions[k], after.right_conditions[k])
            == equality_sides(#[trigger] keys[k], left, right)
    &&& after.non_equi_conditions == predicates.filter(|p: ScalarView| is_other(p, left, right))
}

proof fn lemma_classes(p: ScalarView, left: Set<usize>, right: Set<usize>)
    ensures
        (classify(p, left, right) is Left) == is_left(p, left),
        (classify(p, left, right) is Right) == is_right(p, left, right),
        is_equi(p, left, right) == is_same(p, left, right),
        is_non_equi(p, left, right) == is_other(p, left, right),
        is_equi(p, left, right) ==> (classify(p, left, right)->left, classify(
            p,
            left,
            right,
        )->right) == equality_sides(p, left, right),
{
    law_comparison_names(seq!['e', 'q'], ComparisonOp::Equal);
    if let ScalarView::FunctionCall(func) = p {
        law_comparison_names(func.func_name, ComparisonOp::Equal);
        if func.arguments.len() == 2 {
            assert(used_columns(func.arguments[0]).subset_of(left) == is_left(
                func.arguments[0],
                left,
            ));
            assert(used_columns(func.arguments[1]).subset_of(left) == is_left(
                func.arguments[1],
                left,
            ));
            assert(used_columns(func.arguments[0]).subset_of(right) == is_left(
                func.arguments[0],
                right,
            ));
            assert(used_columns(func.arguments[1]).subset_of(right) == is_left(
                func.arguments[1],
                right,
            ));
        }
    }
    assert(used_columns(p).subset_of(left) == is_left(p, left));
    assert(used_columns(p).subset_of(right) == is_left(p, right));
}

proof fn lemma_items_use_outer(subquery: SubqueryExpr)
    ensures
        touches(
            items_used_columns(subquery.subquery@.plan->EvalScalar_0),
            subquery.outer_columns.order(),
        ) <==> computes_from_outer(subquery),
{
    let items = subquery.subquery@.plan->EvalScalar_0;
    let used = items_used_columns(items);
    let scalars = item_scalars(items);
    let correlated = subquery.outer_columns.order();
    if touches(used, correlated) {
        let c = choose|c: usize| #[trigger] used.contains(c) && correlated.contains(c);
        law_used_by_all_is_used_by_one(scalars, c);
        let i = choose|i: int|
            0 <= i < scalars.len() && used_columns(#[trigger] scalars[i]).contains(c);
        assert(used_columns(items[i].scalar).contains(c));
    }
    if computes_from_outer(subquery) {
        let (i, c) = choose|i: int, c: usize|
            0 <= i < items.len() && #[trigger] correlated.contains(c) && used_columns(
                (#[trigger] items[i]).scalar,
            ).contains(c);
        law_used_by_all_is_used_by_one(scalars, c);
        assert(used_columns(scalars[i]).contains(c));
        assert(used.contains(c));
    }
}

/// A simple join is made exactly for a correlated test for existence whose plan is simple and
/// computes nothing from an outer column, next to a plan that has a property; it then has the
/// parts of one. A plan around it without a property is an error, which comes before the kind of
/// the subquery is looked at.
pub proof fn law_simple_join_parts(input: SExprView, subquery: SubqueryExpr)
    ensures
        ({
            let result = decorrelate_simple(input, subquery);
            let applies = subquery.outer_columns.order().len() > 0 && is_simple(
                subquery.subquery@,
            ) && !computes_from_outer(subquery);
            &&& result matches Ok(Some(join)) ==> simple_parts(input, subquery, join)
            &&& (result is Ok && result->Ok_0 is Some) <==> applies && relational_prop(input) is Ok
                && (subquery.typ is Exists || subquery.typ is NotExists)
            &&& result is Err <==> applies && relational_prop(input) is Err
            &&& result matches Err(e) ==> relational_prop(input)->Err_0 == e
        }),
{
    lemma_items_use_outer(subquery);
    let plan = subquery.subquery@;
    let result = decorrelate_simple(input, subquery);
    if subquery.outer_columns.order().len() > 0 && is_simple(plan) {
        let filter = plan.children[0];
        let table = filter.children[0];
        assert(relational_prop(table) is Ok);
        assert(relational_prop(filter) is Ok);
        assert(output_columns(filter) =~= table.plan->Scan_0.columns);
        if let Ok(Some(join)) = result {
            let predicates = filter.plan->Filter_0.predicates;
            let left = output_columns(input);
            let right = table.plan->Scan_0.columns;
            assert forall|p: ScalarView|
                (#[trigger] is_same(p, left, right)) == is_equi(p, left, right) by {
                lemma_classes(p, left, right);
            }
            assert((|p: ScalarView| classify(p, left, right) is Left) =~= (|p: ScalarView|
                is_left(p, left))) by {
                assert forall|p: ScalarView|
                    (#[trigger] classify(p, left, right) is Left) == is_left(p, left) by {
                    lemma_classes(p, left, right);
                }
            }
            assert((|p: ScalarView| classify(p, left, right) is Right) =~= (|p: ScalarView|
                is_right(p, left, right))) by {
                assert forall|p: ScalarView|
                    (#[trigger] classify(p, left, right) is Right) == is_right(p, left, right) by {
                    lemma_classes(p, left, right);
                }
            }
            assert((|p: ScalarView| is_non_equi(p, left, right)) =~= (|p: ScalarView|
                is_other(p, left, right))) by {
                assert forall|p: ScalarView|
                    (#[trigger] is_non_equi(p, left, right)) == is_other(p, left, right) by {
                    lemma_classes(p, left, right);
                }
            }
            assert((|p: ScalarView| is_equi(p, left, right)) =~= (|p: ScalarView|
                is_same(p, left, right)));
            let keys = predicates.filter(|p: ScalarView| is_same(p, left, right));
            let after = join.plan->Join_0;
            assert forall|k: int| 0 <= k < keys.len() implies (
                after.left_conditions[k],
                after.right_conditions[k],
            ) == equality_sides(#[trigger] keys[k], left, right) by {
                broadcast use vstd::seq_lib::group_filter_ensures;

                lemma_classes(keys[k], left, right);
                assert(is_same(keys[k], left, right));
            }
            assert(SExprView::leaf(table.plan) == table) by {
                assert(table.children =~= Seq::<SExprView>::empty());
            }
        }
    }
}

/// Each predicate of a simple subquery's filter is found in the join: in the filter over the left
/// input, in the filter over the right input, as a pair of equality keys at one place, or among the
/// other conditions.
pub proof fn law_no_predicate_is_lost(input: SExprView, subquery: SubqueryExpr, i: int)
    requires
        decorrelate_simple(input, subquery) matches Ok(Some(_)),
        0 <= i < subquery.subquery@.children[0].plan->Filter_0.predicates.len(),
    ensures
        ({
            let p = subquery.subquery@.children[0].plan->Filter_0.predicates[i];
            let join = decorrelate_simple(input, subquery)->Ok_0->Some_0;
            let after = join.plan->Join_0;
            ||| join.children[0].plan is Filter && join.children[0].plan->Filter_0.predicates.contains(
                p,
            )
            ||| join.children[1].plan is Filter && join.children[1].plan->Filter_0.predicates.contains(
                p,
            )
            ||| after.non_equi_conditions.contains(p)
            ||| exists|k: int|
                0 <= k < after.left_conditions.len() && k < after.right_conditions.len()
                    && equates_sides(
                    p,
                    #[trigger] after.left_conditions[k],
                    after.right_conditions[k],
                )
        }),
{
    broadcast use vstd::seq_lib::group_filter_ensures;

    law_simple_join_parts(input, subquery);
    let plan = subquery.subquery@;
    let predicates = plan.children[0].plan->Filter_0.predicates;
    let p = predicates[i];
    let left = output_columns(input);
    let right = plan.children[0].children[0].plan->Scan_0.columns;
    let join = decorrelate_simple(input, subquery)->Ok_0->Some_0;
    let after = join.plan->Join_0;
    let lefts = predicates.filter(|p: ScalarView| is_left(p, left));
    let rights = predicates.filter(|p: ScalarView| is_right(p, left, right));
    let keys = predicates.filter(|p: ScalarView| is_same(p, left, right));
    let others = predicates.filter(|p: ScalarView| is_other(p, left, right));
    if is_left(p, left) {
        assert(lefts.contains(p));
    } else if is_right(p, left, right) {
        assert(rights.contains(p));
    } else if is_same(p, left, right) {
        assert(keys.contains(p));
        let k = choose|k: int| 0 <= k < keys.len() && keys[k] == p;
        assert((after.left_conditions[k], after.right_conditions[k]) == equality_sides(
            keys[k],
            left,
            right,
        ));
        let arguments = p->FunctionCall_0.arguments;
        assert(arguments =~= seq![arguments[0], arguments[1]]);
        assert(equates_sides(p, after.left_conditions[k], after.right_conditions[k]));
    } else {
        assert(others.contains(p));
    }
}

/// Whether a predicate is a call of the equality function on two scalars, in one order or the other.
pub open spec fn equates_sides(predicate: ScalarView, one: ScalarView, other: ScalarView) -> bool {
    predicate matches ScalarView::FunctionCall(func) && func.func_name == seq!['e', 'q'] && (
    func.arguments == seq![one, other] || func.arguments == seq![other, one])
}

/// A predicate about one input is sorted to it, the left before the right. A comparison of
/// something of the left input with something of the right is sorted to both, with its sides in
/// that order and the comparison that then says the same. Anything else is sorted to neither.
pub proof fn law_classify(p: ScalarView, left: Set<usize>, right: Set<usize>)
    ensures
        match classify(p, left, right) {
            JoinPredicateView::Left(q) => q == p && is_left(p, left),
            JoinPredicateView::Right(q) => q == p && is_right(p, left, right),
            JoinPredicateView::Both { left: l, right: r, op } => {
                &&& !is_left(p, left) && !is_left(p, right)
                &&& is_left(l, left) && is_left(r, right)
                &&& p matches ScalarView::FunctionCall(func) && {
                    ||| func.arguments == seq![l, r] && spells(func.func_name, op)
                    ||| func.arguments == seq![r, l] && exists|written: ComparisonOp|
                        {
                            &&& #[trigger] spells(func.func_name, written)
                            &&& forall|x: int, y: int| #[trigger]
                                compares(op, x, y) == compares(written, y, x)
                        }
                }
            },
            JoinPredicateView::Other(q) => {
                &&& q == p && !is_left(p, left) && !is_left(p, right)
                &&& p matches ScalarView::FunctionCall(func) ==> !exists|written: ComparisonOp|
                    {
                        &&& #[trigger] spells(func.func_name, written)
                        &&& func.arguments.len() == 2
                        &&& {
                            ||| is_left(func.arguments[0], left) && is_left(
                                func.arguments[1],
                                right,
                            )
                            ||| is_left(func.arguments[1], left) && is_left(
                                func.arguments[0],
                                right,
                            )
                        }
                    }
            },
        },
{
    assert(used_columns(p).subset_of(left) == is_left(p, left));
    assert(used_columns(p).subset_of(right) == is_left(p, right));
    if let ScalarView::FunctionCall(func) = p {
        assert forall|written: ComparisonOp|
            comparison_named(func.func_name) == Some(written) <==> #[trigger] spells(
                func.func_name,
                written,
            ) by {
            law_comparison_names(func.func_name, written);
        }
        if func.arguments.len() == 2 {
            let first = func.arguments[0];
            let second = func.arguments[1];
            assert(used_columns(first).subset_of(left) == is_left(first, left));
            assert(used_columns(second).subset_of(left) == is_left(second, left));
            assert(used_columns(first).subset_of(right) == is_left(first, right));
            assert(used_columns(second).subset_of(right) == is_left(second, right));
            assert(func.arguments =~= seq![first, second]);
            if let Some(op) = comparison_named(func.func_name) {
                assert(spells(func.func_name, op));
                assert forall|x: int, y: int| #[trigger]
                    compares(reversed(op), x, y) == compares(op, y, x) by {
                    law_reversed_exchanges_sides(op, x, y);
                }
            }
        }
    }
}

} // verus!
