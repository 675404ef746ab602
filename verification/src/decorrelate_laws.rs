//! What holds of the join that a subquery becomes.

use vstd::prelude::*;

use crate::column_map::{has_key, lemma_lookup_has_key, lookup, values_of};
use crate::column_set::touches;
use crate::definedness::{equations_proper, law_flatten_defined};
use crate::flatten_laws::{
    apart, equations_one_sided, joins_closed, law_flatten_adds_columns, law_flatten_gives_derived,
    law_flatten_rebinds, law_flatten_removes_correlated, lemma_known_when_grown,
};
use crate::join_predicate::{classify, satisfied_by};
use crate::laws::{
    flat_plan, law_flatten_keeps_output, lemma_prop_of_binary, lemma_prop_of_unary, outer_columns,
    output_columns, state_after,
};
use crate::metadata::table_of;
use crate::model::{
    all_known, column_ref, decorrelate, decorrelate_simple, filtered, flatten, is_equi, is_non_equi,
    left_filters, left_keys, non_equi, right_filters, right_keys, FlattenState, Run,
};
use crate::plan::{items_used_columns, JoinType, JoinView};
use crate::property::relational_prop;
use crate::rewriter::UnnestResult;
use crate::s_expr::SExprView;
use crate::scalar::{used_by_all, used_columns, ScalarView, SubqueryExpr};
use crate::types::Visibility;

verus! {

/// The join operator of a plan that is a join of two inputs.
pub open spec fn join_of(plan: SExprView) -> JoinView {
    plan.plan->Join_0
}

/// Whether a plan is a join of two inputs, made for a correlated subquery.
pub open spec fn is_correlated_join(plan: SExprView, join_type: JoinType) -> bool {
    &&& plan.plan is Join
    &&& plan.children.len() == 2
    &&& join_of(plan).join_type == join_type
    &&& join_of(plan).from_correlated_subquery
    &&& !join_of(plan).contain_runtime_filter
}

/// A subquery that gives one value becomes a single join. An `ANY` subquery becomes a mark join.
/// A test for existence becomes a mark join too, or, as a conjunct of a filter and of the simple
/// shape, a semi join or an anti join. Nothing else becomes a join. What is said of the join is
/// true of it, and a mark join marks the column that is named.
pub proof fn law_decorrelate_join_kind(
    state: FlattenState,
    left: SExprView,
    subquery: SubqueryExpr,
    is_conjunctive_predicate: bool,
)
    ensures
        decorrelate(state, left, subquery, is_conjunctive_predicate) matches Run::Done(
            _,
            (join, result),
        ) ==> match result {
            UnnestResult::SingleJoin => {
                &&& subquery.typ is Scalar
                &&& is_correlated_join(join, JoinType::Single)
                &&& join_of(join).marker_index is None
                &&& join.children[0] == left
            },
            UnnestResult::MarkJoin { marker_index } => {
                &&& subquery.typ is Any || subquery.typ is Exists || subquery.typ is NotExists
                &&& is_correlated_join(join, JoinType::RightMark)
                &&& join_of(join).marker_index == Some(marker_index)
                &&& join.children[0] == left
            },
            UnnestResult::SimpleJoin => {
                &&& is_conjunctive_predicate
                &&& subquery.typ is Exists && is_correlated_join(join, JoinType::LeftSemi)
                    || subquery.typ is NotExists && is_correlated_join(join, JoinType::LeftAnti)
                &&& join_of(join).marker_index is None
                &&& join.children[0] == left || (join.children[0].plan is Filter
                    && join.children[0].children == seq![left])
            },
        },
{
}

/// The filter of a simple subquery is taken apart without loss: each predicate goes to exactly one
/// of the left filter, the right filter, the equalities and the other conditions.
pub proof fn law_predicates_sorted(
    predicates: Seq<ScalarView>,
    left: Set<usize>,
    right: Set<usize>,
)
    ensures
        left_filters(predicates, left, right).len() + right_filters(predicates, left, right).len()
            + left_keys(predicates, left, right).len() + non_equi(predicates, left, right).len()
            == predicates.len(),
        left_keys(predicates, left, right).len() == right_keys(predicates, left, right).len(),
        forall|i: int|
            0 <= i < predicates.len() ==> {
                let p = #[trigger] predicates[i];
                &&& left_filters(predicates, left, right).contains(p) <==> classify(p, left, right)
                    is Left
                &&& right_filters(predicates, left, right).contains(p) <==> classify(
                    p,
                    left,
                    right,
                ) is Right
                &&& non_equi(predicates, left, right).contains(p) <==> is_non_equi(p, left, right)
                &&& is_equi(p, left, right) <==> !(classify(p, left, right) is Left || classify(
                    p,
                    left,
                    right,
                ) is Right || is_non_equi(p, left, right))
                &&& is_non_equi(p, left, right) ==> !(classify(p, left, right) is Left)
                    && !(classify(p, left, right) is Right)
            },
{
    broadcast use vstd::seq_lib::group_filter_ensures;

    lemma_sorted_len(predicates, left, right);
    assert forall|i: int| 0 <= i < predicates.len() implies {
        let p = #[trigger] predicates[i];
        &&& left_filters(predicates, left, right).contains(p) <==> classify(p, left, right) is Left
        &&& right_filters(predicates, left, right).contains(p) <==> classify(p, left, right)
            is Right
        &&& non_equi(predicates, left, right).contains(p) <==> is_non_equi(p, left, right)
    } by {
        let p = predicates[i];
        assert(predicates.contains(p));
    }
}

proof fn lemma_sorted_len(predicates: Seq<ScalarView>, left: Set<usize>, right: Set<usize>)
    ensures
        left_filters(predicates, left, right).len() + right_filters(predicates, left, right).len()
            + left_keys(predicates, left, right).len() + non_equi(predicates, left, right).len()
            == predicates.len(),
    decreases predicates.len(),
{
    reveal(Seq::filter);
    if predicates.len() > 0 {
        lemma_sorted_len(predicates.drop_last(), left, right);
    }
}

proof fn lemma_all_satisfied(scalars: Seq<ScalarView>, columns: Set<usize>)
    requires
        forall|i: int| 0 <= i < scalars.len() ==> satisfied_by(#[trigger] scalars[i], columns),
    ensures
        used_by_all(scalars).subset_of(columns),
    decreases scalars.len(),
{
    if scalars.len() > 0 {
        lemma_all_satisfied(scalars.drop_last(), columns);
        assert(satisfied_by(scalars[scalars.len() - 1], columns));
    }
}

/// What is sorted to an input of a join refers to the columns of that input alone: the predicates
/// about it and its sides of the equalities.
pub proof fn law_sorted_predicates_resolve(
    predicates: Seq<ScalarView>,
    left: Set<usize>,
    right: Set<usize>,
)
    ensures
        used_by_all(left_filters(predicates, left, right)).subset_of(left),
        used_by_all(left_keys(predicates, left, right)).subset_of(left),
        used_by_all(right_filters(predicates, left, right)).subset_of(right),
        used_by_all(right_keys(predicates, left, right)).subset_of(right),
{
    broadcast use vstd::seq_lib::group_filter_ensures;

    lemma_all_satisfied(left_filters(predicates, left, right), left);
    lemma_all_satisfied(right_filters(predicates, left, right), right);
    let equalities = predicates.filter(|p: ScalarView| is_equi(p, left, right));
    let lefts = left_keys(predicates, left, right);
    let rights = right_keys(predicates, left, right);
    assert forall|i: int| 0 <= i < lefts.len() implies satisfied_by(#[trigger] lefts[i], left) by {
        assert(is_equi(equalities[i], left, right));
    }
    assert forall|i: int| 0 <= i < rights.len() implies satisfied_by(
        #[trigger] rights[i],
        right,
    ) by {
        assert(is_equi(equalities[i], left, right));
    }
    lemma_all_satisfied(lefts, left);
    lemma_all_satisfied(rights, right);
}

/// References to columns refer to those columns.
proof fn lemma_refs_used(refs: Seq<ScalarView>, indexes: Seq<usize>)
    requires
        refs.len() == indexes.len(),
        forall|i: int| 0 <= i < refs.len() ==> used_columns(#[trigger] refs[i]) == set![indexes[i]],
    ensures
        used_by_all(refs) == indexes.to_set(),
    decreases refs.len(),
{
    if refs.len() > 0 {
        let front = refs.drop_last();
        assert forall|i: int| 0 <= i < front.len() implies used_columns(#[trigger] front[i])
            == set![indexes.drop_last()[i]] by {
            assert(front[i] == refs[i]);
        }
        lemma_refs_used(front, indexes.drop_last());
        assert(used_columns(refs[refs.len() - 1]) == set![indexes[indexes.len() - 1]]);
        assert(indexes =~= indexes.drop_last().push(indexes.last()));
        assert forall|c: usize| indexes.to_set().contains(c) <==> used_by_all(refs).contains(c) by {
            if indexes.to_set().contains(c) {
                let k = choose|k: int| 0 <= k < indexes.len() && indexes[k] == c;
                if k < indexes.len() - 1 {
                    assert(indexes.drop_last()[k] == c);
                    assert(indexes.drop_last().to_set().contains(c));
                }
            }
            if used_by_all(front).contains(c) {
                let k = choose|k: int|
                    0 <= k < indexes.drop_last().len() && indexes.drop_last()[k] == c;
                assert(indexes[k] == c);
            }
            assert(indexes[indexes.len() - 1] == indexes.last());
        }
        assert(used_by_all(refs) =~= indexes.to_set());
    } else {
        assert(used_by_all(refs) =~= indexes.to_set());
    }
}

/// The single join or mark join that a subquery becomes takes no correlated column from around it
/// that its left input, which gives the correlated columns, does not take.
pub proof fn law_decorrelate_removes_correlated(
    state: FlattenState,
    left: SExprView,
    subquery: SubqueryExpr,
    is_conjunctive_predicate: bool,
)
    requires
        decorrelate(state, left, subquery, is_conjunctive_predicate) matches Run::Done(next, joined)
            && next.columns.len() <= usize::MAX && !(joined.1 is SimpleJoin),
        relational_prop(left) is Ok,
        subquery.outer_columns@.subset_of(output_columns(left)),
        all_known(state.columns, subquery.outer_columns.order()),
        apart(state.derived, subquery.outer_columns.order()),
        joins_closed(subquery.subquery@, subquery.outer_columns.order()),
    ensures
        ({
            let join = decorrelate(
                state,
                left,
                subquery,
                is_conjunctive_predicate,
            )->Done_1.0;
            &&& relational_prop(join) is Ok
            &&& forall|c: usize| #[trigger]
                outer_columns(join).contains(c) && subquery.outer_columns@.contains(c)
                    ==> outer_columns(left).contains(c)
        }),
{
    let correlated = subquery.outer_columns.order();
    let run = decorrelate(state, left, subquery, is_conjunctive_predicate);
    let join = run->Done_1.0;
    let below = flatten(state, correlated, subquery.subquery@, false);
    assert(below is Done);
    let flat = flat_plan(below);
    assert(state_after(below).columns.len() <= run->Done_0.columns.len());
    law_flatten_removes_correlated(state, correlated, subquery.subquery@, false);
    law_flatten_keeps_output(state, correlated, subquery.subquery@, false);
    lemma_prop_of_binary(join.plan, left, flat);
    assert forall|c: usize| #[trigger]
        outer_columns(join).contains(c) && subquery.outer_columns@.contains(c) implies outer_columns(
        left,
    ).contains(c) by {
        assert(correlated.contains(c));
        if outer_columns(flat).contains(c) {
            assert(touches(outer_columns(flat), correlated));
        }
    }
}

/// As [`law_decorrelate_removes_correlated`], for the semi join or anti join of a simple subquery.
pub proof fn law_simple_removes_correlated(input: SExprView, subquery: SubqueryExpr)
    requires
        decorrelate_simple(input, subquery) matches Ok(Some(_)),
        subquery.outer_columns@.subset_of(output_columns(input)),
    ensures
        ({
            let join = decorrelate_simple(input, subquery)->Ok_0->Some_0;
            &&& relational_prop(join) is Ok
            &&& forall|c: usize| #[trigger]
                outer_columns(join).contains(c) && subquery.outer_columns@.contains(c)
                    ==> outer_columns(input).contains(c)
        }),
{
    let correlated = subquery.outer_columns.order();
    let plan = subquery.subquery@;
    let items = plan.plan->EvalScalar_0;
    let filter = plan.children[0].plan->Filter_0;
    let table = SExprView::leaf(plan.children[0].children[0].plan);
    let scan = table.plan->Scan_0;
    let join = decorrelate_simple(input, subquery)->Ok_0->Some_0;
    let left = output_columns(input);
    let right = output_columns(plan.children[0]);
    assert(relational_prop(plan.children[0].children[0]) is Ok);
    assert(right =~= scan.columns);
    law_sorted_predicates_resolve(filter.predicates, left, right);
    let first = filtered(left_filters(filter.predicates, left, right), input);
    let computed = SExprView::unary(plan.plan, table);
    let second = filtered(right_filters(filter.predicates, left, right), computed);
    lemma_prop_of_unary(first.plan, input);
    lemma_prop_of_unary(plan.plan, table);
    lemma_prop_of_unary(second.plan, computed);
    lemma_prop_of_binary(join.plan, first, second);
    assert(relational_prop(table) is Ok);
    assert(relational_prop(computed) is Ok);
    assert forall|c: usize| #[trigger]
        outer_columns(join).contains(c) && subquery.outer_columns@.contains(c) implies outer_columns(
        input,
    ).contains(c) by {
        assert(correlated.contains(c));
        if items_used_columns(items).contains(c) {
            assert(touches(items_used_columns(items), correlated));
        }
        assert(output_columns(first).contains(c));
        assert(!outer_columns(computed).contains(c));
        assert(!outer_columns(second).contains(c));
    }
}

/// Whether no derived column that the rewriter already has can reach the join of a subquery in
/// place of a column that the flat subquery gives. For each correlated column the rewriter has none
/// yet, or one that the subquery gives, or the subquery takes the correlated column from around it
/// and equates no two of them.
pub open spec fn derives_anew(state: FlattenState, subquery: SubqueryExpr) -> bool {
    forall|c: usize| #[trigger]
        subquery.outer_columns@.contains(c) ==> {
            ||| !has_key(state.derived, c)
            ||| output_columns(subquery.subquery@).contains(lookup(state.derived, c)->0)
            ||| outer_columns(subquery.subquery@).contains(c) && equations_one_sided(
                subquery.subquery@,
                subquery.outer_columns.order(),
            )
        }
}

/// The equalities of the single join or mark join that a subquery becomes are one for each
/// correlated column, between it and a column that the flat subquery gives, unless that is the
/// derived column which the rewriter already had for it. With a rewriter that derives the columns
/// anew, the flat subquery gives them all. This is said of subqueries that take correlated columns
/// alone from around them.
pub proof fn law_decorrelate_conditions_resolve(
    state: FlattenState,
    left: SExprView,
    subquery: SubqueryExpr,
    is_conjunctive_predicate: bool,
)
    requires
        decorrelate(state, left, subquery, is_conjunctive_predicate) matches Run::Done(_, joined)
            && !(joined.1 is SimpleJoin),
        outer_columns(subquery.subquery@).subset_of(subquery.outer_columns@),
    ensures
        ({
            let join = decorrelate(
                state,
                left,
                subquery,
                is_conjunctive_predicate,
            )->Done_1.0;
            let correlated = subquery.outer_columns.order();
            let inners = join_of(join).right_conditions;
            &&& used_by_all(join_of(join).left_conditions) == subquery.outer_columns@
            &&& join_of(join).left_conditions.len() == correlated.len()
            &&& inners.len() == correlated.len()
            &&& forall|i: int|
                0 <= i < inners.len() ==> {
                    ||| satisfied_by(#[trigger] inners[i], output_columns(join.children[1]))
                    ||| has_key(state.derived, correlated[i]) && used_columns(inners[i])
                        == set![lookup(state.derived, correlated[i])->0]
                }
            &&& derives_anew(state, subquery) ==> used_by_all(inners).subset_of(
                output_columns(join.children[1]),
            )
        }),
{
    let correlated = subquery.outer_columns.order();
    let plan = subquery.subquery@;
    let run = decorrelate(state, left, subquery, is_conjunctive_predicate);
    let join = run->Done_1.0;
    let below = flatten(state, correlated, plan, false);
    let next = below->Done_0;
    let flat = flat_plan(below);
    assert(below is Done);
    assert(join.children[1] == flat);
    law_flatten_keeps_output(state, correlated, plan, false);
    let outers = join_of(join).left_conditions;
    let inners = join_of(join).right_conditions;
    assert forall|i: int| 0 <= i < outers.len() implies used_columns(#[trigger] outers[i])
        == set![correlated[i]] by {
        assert(outers[i] == column_ref(
            next.columns,
            subquery.span,
            correlated[i],
            Visibility::Visible,
        ));
    }
    lemma_refs_used(outers, correlated);
    assert forall|i: int| 0 <= i < inners.len() implies {
        &&& satisfied_by(#[trigger] inners[i], output_columns(flat)) || (has_key(
            state.derived,
            correlated[i],
        ) && used_columns(inners[i]) == set![lookup(state.derived, correlated[i])->0])
        &&& derives_anew(state, subquery) ==> satisfied_by(inners[i], output_columns(flat))
    } by {
        let c = correlated[i];
        assert(lookup(next.derived, c) is Some);
        let v = lookup(next.derived, c)->0;
        law_flatten_gives_derived(state, correlated, plan, false, c);
        lemma_lookup_has_key(state.derived, c);
        assert(inners[i] == column_ref(next.columns, subquery.span, v, Visibility::Visible));
        assert(used_columns(inners[i]) =~= set![v]);
        assert(subquery.outer_columns@.contains(c));
        if outer_columns(plan).contains(c) && equations_one_sided(plan, correlated) {
            law_flatten_rebinds(state, correlated, plan, false, c);
        }
    }
    if derives_anew(state, subquery) {
        lemma_all_satisfied(inners, output_columns(flat));
    }
}

/// Decorrelating finds every column that it needs, where flattening does and the subquery takes
/// each correlated column from around it.
pub proof fn law_decorrelate_defined(
    state: FlattenState,
    left: SExprView,
    subquery: SubqueryExpr,
    is_conjunctive_predicate: bool,
    known: nat,
)
    requires
        !(subquery.typ is All),
        subquery.typ is Any ==> subquery.child_expr is Some && subquery.compare_op is Some,
        table_of(state.columns, subquery.outer_columns.order()) is Some,
        all_known(state.columns, subquery.outer_columns.order()),
        all_known(state.columns, values_of(state.derived)),
        known <= state.columns.len(),
        equations_proper(subquery.subquery@, subquery.outer_columns.order(), known),
        relational_prop(subquery.subquery@) is Ok ==> subquery.outer_columns@.subset_of(
            outer_columns(subquery.subquery@),
        ),
    ensures
        !(decorrelate(state, left, subquery, is_conjunctive_predicate) is Undefined),
{
    let correlated = subquery.outer_columns.order();
    let plan = subquery.subquery@;
    law_flatten_defined(state, correlated, plan, false, known);
    law_flatten_adds_columns(state, correlated, plan, false);
    match flatten(state, correlated, plan, false) {
        Run::Done(next, _) => {
            lemma_known_when_grown(state.columns, next.columns, correlated, correlated);
            assert forall|i: int| 0 <= i < correlated.len() implies {
                &&& #[trigger] correlated[i] < next.columns.len()
                &&& lookup(next.derived, correlated[i]) is Some
                &&& lookup(next.derived, correlated[i])->0 < next.columns.len()
            } by {
                let c = correlated[i];
                assert(subquery.outer_columns@.contains(c));
                assert(outer_columns(plan).contains(c));
                assert(has_key(next.derived, c));
                lemma_lookup_has_key(next.derived, c);
                let v = lookup(next.derived, c)->0;
                let k = choose|k: int|
                    0 <= k < values_of(next.derived).len() && values_of(next.derived)[k] == v;
                assert(values_of(next.derived)[k] < next.columns.len());
            }
        },
        _ => {},
    }
}

/// Decorrelating takes no column of the query away and changes none, whether it gives a join or
/// fails.
pub proof fn law_decorrelate_keeps_columns(
    state: FlattenState,
    left: SExprView,
    subquery: SubqueryExpr,
    is_conjunctive_predicate: bool,
)
    ensures
        !(decorrelate(state, left, subquery, is_conjunctive_predicate) is Undefined)
            ==> state.columns.is_prefix_of(
            state_after(
                decorrelate(state, left, subquery, is_conjunctive_predicate),
            ).columns,
        ),
{
    law_flatten_adds_columns(state, subquery.outer_columns.order(), subquery.subquery@, false);
}

} // verus!
