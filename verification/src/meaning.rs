//! What scalars and conditions mean on a row, and that rewriting keeps it.

use vstd::prelude::*;

use crate::column_map::lookup;
use crate::join_laws::{
    equality_sides, equates_derived, is_filtered, is_left, is_other, is_right, is_same,
    law_conjuncts, law_mark_join, law_simple_join_parts, law_single_join,
};
use crate::laws::{outer_columns, output_columns, state_after};
use crate::metadata::ColumnEntryView;
use crate::model::{
    decorrelate, decorrelate_simple, enter_filter, flatten, flatten_child, flatten_scalar,
    flatten_scalars, FlattenState, Outcome, Run,
};
use crate::plan::JoinView;
use crate::s_expr::SExprView;
use crate::scalar::{
    used_by_all, used_columns, ComparisonOp, ConstantExpr, ScalarView, SubqueryExpr,
};
use crate::scalar_laws::{all_have_rules, has_rules, spells};
use crate::types::{DataType, Scalar};

verus! {

/// What the parts of scalars mean: a value for each, from the values of its own parts. Nothing is
/// said of what the values are.
pub struct Meaning {
    /// Of a literal.
    pub constant: spec_fn(ConstantExpr) -> int,
    /// Of a call, by the name of the function and its parameters.
    pub call: spec_fn(Seq<char>, Seq<usize>, Seq<int>) -> int,
    /// Of an aggregate function, by its name, whether it takes each value once, its parameters and
    /// its type.
    pub aggregate: spec_fn(Seq<char>, bool, Seq<Scalar>, DataType, Seq<int>) -> int,
    /// Of a conversion, by whether it may fail and the type that it goes to.
    pub cast: spec_fn(bool, DataType, int) -> int,
    /// Of any other scalar.
    pub other: spec_fn(ScalarView, spec_fn(usize) -> int) -> int,
    /// Whether a condition of a value holds.
    pub holds: spec_fn(int) -> bool,
    /// Whether two values are equal in an equality condition of a join.
    pub same: spec_fn(int, int) -> bool,
}

/// The value of a scalar on a row, which has a value for each column.
pub open spec fn value(m: Meaning, row: spec_fn(usize) -> int, scalar: ScalarView) -> int
    decreases scalar,
{
    match scalar {
        ScalarView::BoundColumnRef(reference) => row(reference.column.index),
        ScalarView::ConstantExpr(constant) => (m.constant)(constant),
        ScalarView::AggregateFunction(agg) => (m.aggregate)(
            agg.func_name,
            agg.distinct,
            agg.params,
            agg.return_type,
            values(m, row, agg.args),
        ),
        ScalarView::FunctionCall(func) => (m.call)(
            func.func_name,
            func.params,
            values(m, row, func.arguments),
        ),
        ScalarView::CastExpr(cast) => (m.cast)(
            cast.is_try,
            cast.target_type,
            value(m, row, *cast.argument),
        ),
        _ => (m.other)(scalar, row),
    }
}

/// The values of scalars on a row.
pub open spec fn values(m: Meaning, row: spec_fn(usize) -> int, scalars: Seq<ScalarView>) -> Seq<
    int,
>
    decreases scalars,
{
    if scalars.len() == 0 {
        Seq::empty()
    } else {
        values(m, row, scalars.drop_last()).push(value(m, row, scalars.last()))
    }
}

/// Whether each predicate holds of a row.
pub open spec fn all_hold(
    m: Meaning,
    row: spec_fn(usize) -> int,
    predicates: Seq<ScalarView>,
) -> bool {
    forall|i: int|
        0 <= i < predicates.len() ==> (m.holds)(value(m, row, #[trigger] predicates[i]))
}

/// A row with the value of the derived column in each correlated column.
pub open spec fn read_through(
    derived: Seq<(usize, usize)>,
    correlated: Seq<usize>,
    row: spec_fn(usize) -> int,
) -> spec_fn(usize) -> int {
    |c: usize|
        if correlated.contains(c) {
            row(lookup(derived, c)->0)
        } else {
            row(c)
        }
}

/// A flat scalar has on each row the value that the scalar has with the correlated columns read
/// from their derived columns.
pub proof fn law_flatten_scalar_value(
    columns: Seq<ColumnEntryView>,
    derived: Seq<(usize, usize)>,
    correlated: Seq<usize>,
    scalar: ScalarView,
    m: Meaning,
    row: spec_fn(usize) -> int,
)
    ensures
        flatten_scalar(columns, derived, correlated, scalar) matches Outcome::Done(flat) ==> value(
            m,
            row,
            flat,
        ) == value(m, read_through(derived, correlated, row), scalar),
    decreases scalar,
{
    match scalar {
        ScalarView::AggregateFunction(agg) => {
            law_flatten_scalars_values(columns, derived, correlated, agg.args, m, row);
        },
        ScalarView::FunctionCall(func) => {
            law_flatten_scalars_values(columns, derived, correlated, func.arguments, m, row);
        },
        ScalarView::CastExpr(cast) => {
            law_flatten_scalar_value(columns, derived, correlated, *cast.argument, m, row);
        },
        _ => {},
    }
}

/// As [`law_flatten_scalar_value`], for scalars together.
pub proof fn law_flatten_scalars_values(
    columns: Seq<ColumnEntryView>,
    derived: Seq<(usize, usize)>,
    correlated: Seq<usize>,
    scalars: Seq<ScalarView>,
    m: Meaning,
    row: spec_fn(usize) -> int,
)
    ensures
        flatten_scalars(columns, derived, correlated, scalars) matches Outcome::Done(flat) ==> {
            &&& flat.len() == scalars.len()
            &&& values(m, row, flat) == values(m, read_through(derived, correlated, row), scalars)
            &&& forall|i: int|
                0 <= i < flat.len() ==> value(m, row, #[trigger] flat[i]) == value(
                    m,
                    read_through(derived, correlated, row),
                    scalars[i],
                )
        },
    decreases scalars,
{
    if scalars.len() > 0 && flatten_scalars(columns, derived, correlated, scalars) is Done {
        let front = scalars.drop_last();
        law_flatten_scalars_values(columns, derived, correlated, front, m, row);
        law_flatten_scalar_value(columns, derived, correlated, scalars.last(), m, row);
        let flat = flatten_scalars(columns, derived, correlated, scalars)->Done_0;
        assert(flat.drop_last() =~= flatten_scalars(columns, derived, correlated, front)->Done_0);
        assert forall|i: int| 0 <= i < flat.len() implies value(m, row, #[trigger] flat[i])
            == value(m, read_through(derived, correlated, row), scalars[i]) by {
            if i < front.len() {
                assert(flat.drop_last()[i] == flat[i]);
                assert(front[i] == scalars[i]);
            }
        }
    }
}

/// A scalar has the same value on rows that agree on the columns that it uses.
pub proof fn law_used_columns_decide_value(
    scalar: ScalarView,
    m: Meaning,
    one: spec_fn(usize) -> int,
    other: spec_fn(usize) -> int,
)
    requires
        has_rules(scalar),
        forall|c: usize| #[trigger] used_columns(scalar).contains(c) ==> one(c) == other(c),
    ensures
        value(m, one, scalar) == value(m, other, scalar),
    decreases scalar,
{
    match scalar {
        ScalarView::BoundColumnRef(reference) => {
            assert(used_columns(scalar).contains(reference.column.index));
        },
        ScalarView::AggregateFunction(agg) => {
            assert(used_columns(scalar) == used_by_all(agg.args));
            lemma_used_columns_decide_values(agg.args, m, one, other);
        },
        ScalarView::FunctionCall(func) => {
            assert(used_columns(scalar) == used_by_all(func.arguments));
            lemma_used_columns_decide_values(func.arguments, m, one, other);
        },
        ScalarView::CastExpr(cast) => {
            assert(used_columns(scalar) == used_columns(*cast.argument));
            law_used_columns_decide_value(*cast.argument, m, one, other);
        },
        _ => {},
    }
}

proof fn lemma_used_columns_decide_values(
    scalars: Seq<ScalarView>,
    m: Meaning,
    one: spec_fn(usize) -> int,
    other: spec_fn(usize) -> int,
)
    requires
        all_have_rules(scalars),
        forall|c: usize| #[trigger] used_by_all(scalars).contains(c) ==> one(c) == other(c),
    ensures
        values(m, one, scalars) == values(m, other, scalars),
    decreases scalars,
{
    if scalars.len() > 0 {
        assert forall|c: usize| #[trigger]
            used_by_all(scalars.drop_last()).contains(c) implies one(c) == other(c) by {
            assert(used_by_all(scalars).contains(c));
        }
        assert forall|c: usize| #[trigger] used_columns(scalars.last()).contains(c) implies one(c)
            == other(c) by {
            assert(used_by_all(scalars).contains(c));
        }
        lemma_used_columns_decide_values(scalars.drop_last(), m, one, other);
        law_used_columns_decide_value(scalars.last(), m, one, other);
    }
}

/// A flat filter keeps exactly the rows that the filter keeps with the correlated columns read from
/// their derived columns.
pub proof fn law_flat_filter_keeps_the_rows(
    state: FlattenState,
    correlated: Seq<usize>,
    plan: SExprView,
    need_cross_join: bool,
    m: Meaning,
    row: spec_fn(usize) -> int,
)
    requires
        flatten(state, correlated, plan, need_cross_join) is Done,
        outer_columns(plan) != Set::<usize>::empty(),
        plan.plan is Filter,
    ensures
        ({
            let next = flatten(state, correlated, plan, need_cross_join)->Done_0;
            let flat = flatten(state, correlated, plan, need_cross_join)->Done_1;
            &&& flat.plan is Filter
            &&& all_hold(m, row, flat.plan->Filter_0.predicates) == all_hold(
                m,
                read_through(next.derived, correlated, row),
                plan.plan->Filter_0.predicates,
            )
        }),
{
    let predicates = plan.plan->Filter_0.predicates;
    let run = flatten(state, correlated, plan, need_cross_join);
    let entered = enter_filter(state, correlated, predicates, need_cross_join);
    assert(flatten_child(entered->Done_0, correlated, plan, 0, entered->Done_1) is Done);
    let next = run->Done_0;
    let flat = run->Done_1.plan->Filter_0.predicates;
    let through = read_through(next.derived, correlated, row);
    law_flatten_scalars_values(next.columns, next.derived, correlated, predicates, m, row);
    if all_hold(m, row, flat) {
        assert forall|i: int| 0 <= i < predicates.len() implies (m.holds)(
            value(m, through, #[trigger] predicates[i]),
        ) by {
            assert((m.holds)(value(m, row, flat[i])));
        }
    }
}

/// Whether each equality condition of a join holds of a row: its sides, at the same place, are
/// equal.
pub open spec fn keys_agree(m: Meaning, row: spec_fn(usize) -> int, join: JoinView) -> bool {
    &&& join.left_conditions.len() == join.right_conditions.len()
    &&& forall|k: int|
        0 <= k < join.left_conditions.len() ==> (m.same)(
            value(m, row, #[trigger] join.left_conditions[k]),
            value(m, row, join.right_conditions[k]),
        )
}

/// Whether all conditions of a join hold of a row.
pub open spec fn join_holds(m: Meaning, row: spec_fn(usize) -> int, join: JoinView) -> bool {
    keys_agree(m, row, join) && all_hold(m, row, join.non_equi_conditions)
}

/// The predicates of the filter that was put over a plan: none if the plan is still as it was.
pub open spec fn put_over(plan: SExprView, base: SExprView) -> Seq<ScalarView> {
    if plan == base {
        Seq::empty()
    } else {
        plan.plan->Filter_0.predicates
    }
}

spec fn depth(plan: SExprView) -> nat
    decreases plan,
{
    if plan.children.len() == 0 {
        0
    } else {
        1 + depth(plan.children[0])
    }
}

proof fn lemma_put_over(plan: SExprView, predicates: Seq<ScalarView>, base: SExprView)
    requires
        is_filtered(plan, predicates, base),
    ensures
        put_over(plan, base) == predicates,
{
    if predicates.len() == 0 {
        assert(predicates =~= Seq::<ScalarView>::empty());
    } else {
        assert(plan.children[0] == base);
        assert(depth(plan) == 1 + depth(base));
    }
}

/// Whether the equality function means equality, whichever side comes first.
pub open spec fn equality_is_sound(m: Meaning) -> bool {
    &&& forall|x: int, y: int| #[trigger] (m.same)(x, y) == (m.same)(y, x)
    &&& forall|name: Seq<char>, params: Seq<usize>, sides: Seq<int>|
        spells(name, ComparisonOp::Equal) && sides.len() == 2 ==> (m.holds)(
            #[trigger] (m.call)(name, params, sides),
        ) == (m.same)(sides[0], sides[1])
}

/// The semi join or anti join of a simple subquery asks of a pair of rows exactly what the
/// subquery's filter asks: the filters put over its inputs and its conditions hold together
/// exactly if each predicate holds.
pub proof fn law_simple_join_asks_the_same(
    input: SExprView,
    subquery: SubqueryExpr,
    m: Meaning,
    row: spec_fn(usize) -> int,
)
    requires
        decorrelate_simple(input, subquery) matches Ok(Some(_)),
        equality_is_sound(m),
    ensures
        ({
            let plan = subquery.subquery@;
            let join = decorrelate_simple(input, subquery)->Ok_0->Some_0;
            let base = SExprView {
                plan: plan.plan,
                children: seq![plan.children[0].children[0]],
            };
            &&& join.plan is Join
            &&& join.children.len() == 2
            &&& (all_hold(m, row, put_over(join.children[0], input)) && all_hold(
                m,
                row,
                put_over(join.children[1], base),
            ) && join_holds(m, row, join.plan->Join_0)) <==> all_hold(
                m,
                row,
                plan.children[0].plan->Filter_0.predicates,
            )
        }),
{
    broadcast use vstd::seq_lib::group_filter_ensures;

    law_simple_join_parts(input, subquery);
    let plan = subquery.subquery@;
    let predicates = plan.children[0].plan->Filter_0.predicates;
    let table = plan.children[0].children[0];
    let base = SExprView { plan: plan.plan, children: seq![table] };
    let left = output_columns(input);
    let right = table.plan->Scan_0.columns;
    let join = decorrelate_simple(input, subquery)->Ok_0->Some_0;
    let after = join.plan->Join_0;
    let lefts = predicates.filter(|p: ScalarView| is_left(p, left));
    let rights = predicates.filter(|p: ScalarView| is_right(p, left, right));
    let keys = predicates.filter(|p: ScalarView| is_same(p, left, right));
    let others = predicates.filter(|p: ScalarView| is_other(p, left, right));
    lemma_put_over(join.children[0], lefts, input);
    lemma_put_over(join.children[1], rights, base);
    let parts = all_hold(m, row, lefts) && all_hold(m, row, rights) && join_holds(m, row, after);
    if parts {
        assert forall|i: int| 0 <= i < predicates.len() implies (m.holds)(
            value(m, row, #[trigger] predicates[i]),
        ) by {
            let p = predicates[i];
            if is_left(p, left) {
                assert(lefts.contains(p));
            } else if is_right(p, left, right) {
                assert(rights.contains(p));
            } else if is_same(p, left, right) {
                assert(keys.contains(p));
                let k = choose|k: int| 0 <= k < keys.len() && keys[k] == p;
                lemma_key_value(keys[k], left, right, m, row);
                assert((m.same)(
                    value(m, row, after.left_conditions[k]),
                    value(m, row, after.right_conditions[k]),
                ));
                assert((after.left_conditions[k], after.right_conditions[k]) == equality_sides(
                    keys[k],
                    left,
                    right,
                ));
            } else {
                assert(others.contains(p));
            }
        }
    }
    if all_hold(m, row, predicates) {
        lemma_filter_holds(predicates, |p: ScalarView| is_left(p, left), m, row);
        lemma_filter_holds(predicates, |p: ScalarView| is_right(p, left, right), m, row);
        lemma_filter_holds(predicates, |p: ScalarView| is_same(p, left, right), m, row);
        lemma_filter_holds(predicates, |p: ScalarView| is_other(p, left, right), m, row);
        assert forall|k: int| 0 <= k < after.left_conditions.len() implies (m.same)(
            value(m, row, #[trigger] after.left_conditions[k]),
            value(m, row, after.right_conditions[k]),
        ) by {
            assert((m.holds)(value(m, row, keys[k])));
            assert(is_same(keys[k], left, right));
            lemma_key_value(keys[k], left, right, m, row);
            assert((after.left_conditions[k], after.right_conditions[k]) == equality_sides(
                keys[k],
                left,
                right,
            ));
        }
    }
}

proof fn lemma_filter_holds(
    predicates: Seq<ScalarView>,
    pick: spec_fn(ScalarView) -> bool,
    m: Meaning,
    row: spec_fn(usize) -> int,
)
    requires
        all_hold(m, row, predicates),
    ensures
        all_hold(m, row, predicates.filter(pick)),
    decreases predicates.len(),
{
    reveal(Seq::filter);
    if predicates.len() > 0 {
        let front = predicates.drop_last();
        assert forall|i: int| 0 <= i < front.len() implies (m.holds)(
            value(m, row, #[trigger] front[i]),
        ) by {
            assert(front[i] == predicates[i]);
        }
        lemma_filter_holds(front, pick, m, row);
        assert((m.holds)(value(m, row, predicates[predicates.len() - 1])));
    }
}

/// An equality holds exactly if its sides are equal.
proof fn lemma_key_value(
    p: ScalarView,
    left: Set<usize>,
    right: Set<usize>,
    m: Meaning,
    row: spec_fn(usize) -> int,
)
    requires
        is_same(p, left, right),
        equality_is_sound(m),
    ensures
        (m.holds)(value(m, row, p)) == (m.same)(
            value(m, row, equality_sides(p, left, right).0),
            value(m, row, equality_sides(p, left, right).1),
        ),
{
    let func = p->FunctionCall_0;
    let x = value(m, row, func.arguments[0]);
    let y = value(m, row, func.arguments[1]);
    lemma_two_values(m, row, func.arguments);
    assert(spells(func.func_name, ComparisonOp::Equal));
    assert((m.holds)((m.call)(func.func_name, func.params, seq![x, y])) == (m.same)(x, y));
    assert((m.same)(x, y) == (m.same)(y, x));
}

proof fn lemma_two_values(m: Meaning, row: spec_fn(usize) -> int, arguments: Seq<ScalarView>)
    requires
        arguments.len() == 2,
    ensures
        values(m, row, arguments) == seq![
            value(m, row, arguments[0]),
            value(m, row, arguments[1]),
        ],
{
    let front = arguments.drop_last();
    assert(front.drop_last() =~= Seq::<ScalarView>::empty());
    assert(values(m, row, front.drop_last()) =~= Seq::<int>::empty());
    assert(front.last() == arguments[0]);
    assert(arguments.last() == arguments[1]);
    assert(values(m, row, front) =~= seq![value(m, row, arguments[0])]);
    assert(values(m, row, arguments) =~= seq![
        value(m, row, arguments[0]),
        value(m, row, arguments[1]),
    ]);
}

/// A single join or mark join pairs two rows exactly if each correlated column of the row around
/// the subquery is equal to its own derived column in the row of the flat subquery, and, for an
/// `ANY` subquery, the comparison holds between what is compared, on the left, and the column that
/// the subquery gives.
pub proof fn law_join_pairs_rows(
    state: FlattenState,
    left: SExprView,
    subquery: SubqueryExpr,
    is_conjunctive_predicate: bool,
    m: Meaning,
    row: spec_fn(usize) -> int,
)
    requires
        decorrelate(state, left, subquery, is_conjunctive_predicate) matches Run::Done(_, joined)
            && !(joined.1 is SimpleJoin),
    ensures
        ({
            let join = decorrelate(
                state,
                left,
                subquery,
                is_conjunctive_predicate,
            )->Done_1.0.plan->Join_0;
            let correlated = subquery.outer_columns.order();
            let derived = state_after(
                flatten(state, correlated, subquery.subquery@, false),
            ).derived;
            &&& keys_agree(m, row, join) <==> forall|i: int|
                0 <= i < correlated.len() ==> (m.same)(
                    row(#[trigger] correlated[i]),
                    row(lookup(derived, correlated[i])->0),
                )
            &&& if subquery.typ is Any {
                exists|name: Seq<char>|
                    {
                        &&& #[trigger] spells(name, subquery.compare_op->0)
                        &&& all_hold(m, row, join.non_equi_conditions) <==> (m.holds)(
                            (m.call)(
                                name,
                                Seq::empty(),
                                seq![
                                    value(m, row, subquery.child_expr->0@),
                                    row(subquery.output_column.index),
                                ],
                            ),
                        )
                    }
            } else {
                all_hold(m, row, join.non_equi_conditions)
            }
        }),
{
    let correlated = subquery.outer_columns.order();
    if subquery.typ is Scalar {
        law_single_join(state, left, subquery, is_conjunctive_predicate);
    } else {
        law_conjuncts(state, left, subquery);
        law_mark_join(state, left, subquery, is_conjunctive_predicate);
    }
    let below = flatten(state, correlated, subquery.subquery@, false);
    let next = below->Done_0;
    let join = decorrelate(
        state,
        left,
        subquery,
        is_conjunctive_predicate,
    )->Done_1.0.plan->Join_0;
    assert(equates_derived(next, correlated, subquery.span, join));
    assert forall|i: int| 0 <= i < correlated.len() implies value(
        m,
        row,
        join.left_conditions[i],
    ) == row(#[trigger] correlated[i]) && value(m, row, join.right_conditions[i]) == row(
        lookup(next.derived, correlated[i])->0,
    ) by {}
    if keys_agree(m, row, join) {
        assert forall|i: int| 0 <= i < correlated.len() implies (m.same)(
            row(#[trigger] correlated[i]),
            row(lookup(next.derived, correlated[i])->0),
        ) by {
            assert((m.same)(
                value(m, row, join.left_conditions[i]),
                value(m, row, join.right_conditions[i]),
            ));
        }
    }
    if forall|i: int|
        0 <= i < correlated.len() ==> (m.same)(
            row(#[trigger] correlated[i]),
            row(lookup(next.derived, correlated[i])->0),
        ) {
        assert forall|k: int| 0 <= k < join.left_conditions.len() implies (m.same)(
            value(m, row, #[trigger] join.left_conditions[k]),
            value(m, row, join.right_conditions[k]),
        ) by {
            let c = correlated[k];
        }
    }
    if subquery.typ is Any {
        let func = join.non_equi_conditions[0]->FunctionCall_0;
        lemma_two_values(m, row, func.arguments);
        assert(func.params =~= Seq::<usize>::empty());
        assert(value(m, row, func.arguments[1]) == row(subquery.output_column.index));
        let truth = (m.holds)(value(m, row, join.non_equi_conditions[0]));
        assert(all_hold(m, row, join.non_equi_conditions) <==> truth);
        assert(spells(func.func_name, subquery.compare_op->0));
    }
}

} // verus!
