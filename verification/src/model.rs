//! What flattening makes of a plan.
//!
//! A correlated column is one of the query around a subquery that the subquery refers to. To
//! flatten the subquery's plan is to make it refer to columns of its own in their place: its
//! derived columns.

use vstd::prelude::*;

use crate::column_map::{bind, lookup, values_of};
use crate::column_set::touches;
use crate::error::{ErrorCode, Stop};
use crate::join_predicate::{classify, func_name, JoinPredicateView};
use crate::metadata::{table_of, with_derived, ColumnEntryView};
use crate::names::{is_count_name, subquery_column_name};
use crate::plan::{
    item_columns, item_scalars, items_used_columns, join_used_columns, union_used_columns,
    AggregateMode, AggregateView, FilterView, JoinType, JoinView, RelOperatorView, ScalarItemView,
    ScanView,
};
use crate::property::relational_prop;
use crate::rewriter::UnnestResult;
use crate::s_expr::SExprView;
use crate::scalar::{
    used_columns, AggregateFunctionView, BoundColumnRefView, CastExprView, ColumnBindingView,
    ComparisonOp, FunctionCallView, ScalarView, SubqueryExpr, SubqueryType,
};
use crate::types::{DataType, Span, Visibility};

verus! {

/// What flattening reads and changes.
#[verifier::ext_equal]
pub struct FlattenState {
    /// The columns of the query.
    pub columns: Seq<ColumnEntryView>,
    /// The derived column of each correlated column.
    pub derived: Seq<(usize, usize)>,
    /// Whether an aggregate function that counts was met.
    pub from_count_func: bool,
}

/// The end of a step that changes nothing.
pub enum Outcome<T> {
    /// It gives a value.
    Done(T),
    /// It fails.
    Failed(ErrorCode),
    /// A column that it needs does not exist.
    Undefined,
}

/// The end of a step, with the state that it leaves behind.
pub enum Run<T> {
    /// It gives a value.
    Done(FlattenState, T),
    /// It fails.
    Failed(FlattenState, ErrorCode),
    /// A column or a part of an expression that it needs does not exist.
    Undefined,
}

/// The end of a step that left `state` behind and returned `result`.
pub open spec fn ended<T>(state: FlattenState, result: Result<T, Stop>) -> Run<T> {
    match result {
        Ok(value) => Run::Done(state, value),
        Err(Stop::Failed(e)) => Run::Failed(state, e),
        Err(Stop::Undefined) => Run::Undefined,
    }
}

/// The end of a step that changes nothing, with the state.
pub open spec fn kept<T>(state: FlattenState, outcome: Outcome<T>) -> Run<T> {
    match outcome {
        Outcome::Done(value) => Run::Done(state, value),
        Outcome::Failed(e) => Run::Failed(state, e),
        Outcome::Undefined => Run::Undefined,
    }
}

/// A column of the query under a name, as a reference to it spells it.
pub open spec fn binding(
    columns: Seq<ColumnEntryView>,
    index: usize,
    name: Seq<char>,
    visibility: Visibility,
) -> ColumnBindingView {
    ColumnBindingView {
        database_name: None,
        table_name: None,
        table_index: None,
        column_name: name,
        index,
        data_type: columns[index as int].data_type,
        visibility,
    }
}

/// A reference to a column of the query under its own name.
pub open spec fn column_ref(
    columns: Seq<ColumnEntryView>,
    span: Span,
    index: usize,
    visibility: Visibility,
) -> ScalarView {
    ScalarView::BoundColumnRef(
        BoundColumnRefView {
            span,
            column: binding(columns, index, columns[index as int].name, visibility),
        },
    )
}

/// A reference with a derived column in place of a correlated one.
pub open spec fn flatten_column(
    columns: Seq<ColumnEntryView>,
    derived: Seq<(usize, usize)>,
    correlated: Seq<usize>,
    column: BoundColumnRefView,
) -> Outcome<ScalarView> {
    if correlated.contains(column.column.index) {
        match lookup(derived, column.column.index) {
            Some(index) => if index < columns.len() {
                Outcome::Done(column_ref(columns, column.span, index, column.column.visibility))
            } else {
                Outcome::Undefined
            },
            None => Outcome::Undefined,
        }
    } else {
        Outcome::Done(ScalarView::BoundColumnRef(column))
    }
}

/// A scalar with derived columns in place of the correlated ones. Its parts are taken from left to
/// right, and the first that gives nothing decides.
pub open spec fn flatten_scalar(
    columns: Seq<ColumnEntryView>,
    derived: Seq<(usize, usize)>,
    correlated: Seq<usize>,
    scalar: ScalarView,
) -> Outcome<ScalarView>
    decreases scalar,
{
    match scalar {
        ScalarView::BoundColumnRef(column) => flatten_column(columns, derived, correlated, column),
        ScalarView::ConstantExpr(_) => Outcome::Done(scalar),
        ScalarView::AggregateFunction(agg) => match flatten_scalars(
            columns,
            derived,
            correlated,
            agg.args,
        ) {
            Outcome::Done(args) => Outcome::Done(
                ScalarView::AggregateFunction(AggregateFunctionView { args, ..agg }),
            ),
            Outcome::Failed(e) => Outcome::Failed(e),
            Outcome::Undefined => Outcome::Undefined,
        },
        ScalarView::FunctionCall(func) => match flatten_scalars(
            columns,
            derived,
            correlated,
            func.arguments,
        ) {
            Outcome::Done(arguments) => Outcome::Done(
                ScalarView::FunctionCall(FunctionCallView { arguments, ..func }),
            ),
            Outcome::Failed(e) => Outcome::Failed(e),
            Outcome::Undefined => Outcome::Undefined,
        },
        ScalarView::CastExpr(cast) => match flatten_scalar(
            columns,
            derived,
            correlated,
            *cast.argument,
        ) {
            Outcome::Done(argument) => Outcome::Done(
                ScalarView::CastExpr(CastExprView { argument: Box::new(argument), ..cast }),
            ),
            Outcome::Failed(e) => Outcome::Failed(e),
            Outcome::Undefined => Outcome::Undefined,
        },
        ScalarView::SubqueryExpr(_) => Outcome::Failed(ErrorCode::InvalidScalar),
        ScalarView::Opaque(_) => Outcome::Failed(ErrorCode::InvalidScalar),
    }
}

/// Each scalar with derived columns in place of the correlated ones.
pub open spec fn flatten_scalars(
    columns: Seq<ColumnEntryView>,
    derived: Seq<(usize, usize)>,
    correlated: Seq<usize>,
    scalars: Seq<ScalarView>,
) -> Outcome<Seq<ScalarView>>
    decreases scalars,
{
    if scalars.len() == 0 {
        Outcome::Done(Seq::empty())
    } else {
        match flatten_scalars(columns, derived, correlated, scalars.drop_last()) {
            Outcome::Done(flat) => match flatten_scalar(
                columns,
                derived,
                correlated,
                scalars.last(),
            ) {
                Outcome::Done(last) => Outcome::Done(flat.push(last)),
                Outcome::Failed(e) => Outcome::Failed(e),
                Outcome::Undefined => Outcome::Undefined,
            },
            other => other,
        }
    }
}

/// The items with other scalars.
pub open spec fn with_scalars(items: Seq<ScalarItemView>, scalars: Seq<ScalarView>) -> Seq<
    ScalarItemView,
> {
    Seq::new(
        items.len(),
        |i: int| ScalarItemView { scalar: scalars[i], index: items[i].index },
    )
}

/// Each item with derived columns in place of the correlated ones.
pub open spec fn flatten_items(
    columns: Seq<ColumnEntryView>,
    derived: Seq<(usize, usize)>,
    correlated: Seq<usize>,
    items: Seq<ScalarItemView>,
) -> Outcome<Seq<ScalarItemView>> {
    match flatten_scalars(columns, derived, correlated, item_scalars(items)) {
        Outcome::Done(scalars) => Outcome::Done(with_scalars(items, scalars)),
        Outcome::Failed(e) => Outcome::Failed(e),
        Outcome::Undefined => Outcome::Undefined,
    }
}

/// Whether a scalar is an aggregate function that counts.
pub open spec fn counts(scalar: ScalarView) -> bool {
    match scalar {
        ScalarView::AggregateFunction(agg) => is_count_name(agg.func_name),
        _ => false,
    }
}

/// As [`flatten_items`], and a function that counts is noted.
pub open spec fn flatten_aggregates(
    state: FlattenState,
    correlated: Seq<usize>,
    items: Seq<ScalarItemView>,
) -> Run<Seq<ScalarItemView>>
    decreases items.len(),
{
    if items.len() == 0 {
        Run::Done(state, Seq::empty())
    } else {
        match flatten_aggregates(state, correlated, items.drop_last()) {
            Run::Done(next, flat) => match flatten_scalar(
                next.columns,
                next.derived,
                correlated,
                items.last().scalar,
            ) {
                Outcome::Done(scalar) => Run::Done(
                    FlattenState {
                        from_count_func: next.from_count_func || counts(scalar),
                        ..next
                    },
                    flat.push(ScalarItemView { scalar, index: items.last().index }),
                ),
                Outcome::Failed(e) => Run::Failed(next, e),
                Outcome::Undefined => Run::Undefined,
            },
            other => other,
        }
    }
}

/// Whether the query has all of the columns.
pub open spec fn all_known(columns: Seq<ColumnEntryView>, indexes: Seq<usize>) -> bool {
    forall|i: int| 0 <= i < indexes.len() ==> #[trigger] indexes[i] < columns.len()
}

/// Items that pass the derived columns on.
pub open spec fn derived_items(columns: Seq<ColumnEntryView>, derived: Seq<(usize, usize)>) -> Seq<
    ScalarItemView,
> {
    values_of(derived).map_values(
        |index: usize|
            ScalarItemView {
                scalar: column_ref(columns, None, index, Visibility::Visible),
                index,
            },
    )
}

/// Items that group by the derived columns.
pub open spec fn derived_group_items(
    columns: Seq<ColumnEntryView>,
    derived: Seq<(usize, usize)>,
) -> Seq<ScalarItemView> {
    values_of(derived).map_values(
        |index: usize|
            ScalarItemView {
                scalar: ScalarView::BoundColumnRef(
                    BoundColumnRefView {
                        span: None,
                        column: binding(
                            columns,
                            index,
                            subquery_column_name(index),
                            Visibility::Visible,
                        ),
                    },
                ),
                index,
            },
    )
}

/// The columns and the derived columns once each correlated column has a derived column of its own,
/// of its name and type.
pub open spec fn add_derived_columns(
    columns: Seq<ColumnEntryView>,
    derived: Seq<(usize, usize)>,
    correlated: Seq<usize>,
) -> Option<(Seq<ColumnEntryView>, Seq<(usize, usize)>)>
    decreases correlated.len(),
{
    if correlated.len() == 0 {
        Some((columns, derived))
    } else {
        match add_derived_columns(columns, derived, correlated.drop_last()) {
            Some((known, bound)) => if correlated.last() < known.len() {
                let entry = known[correlated.last() as int];
                Some(
                    (
                        with_derived(known, entry.name, entry.data_type),
                        bind(bound, correlated.last(), known.len() as usize),
                    ),
                )
            } else {
                None
            },
            None => None,
        }
    }
}

/// A plan joined with the columns of a table.
pub open spec fn cross_join(table_index: usize, columns: Set<usize>, plan: SExprView) -> SExprView {
    SExprView::binary(
        RelOperatorView::Join(
            JoinView {
                left_conditions: Seq::empty(),
                right_conditions: Seq::empty(),
                non_equi_conditions: Seq::empty(),
                join_type: JoinType::Cross,
                marker_index: None,
                from_correlated_subquery: false,
                contain_runtime_filter: false,
            },
        ),
        SExprView::leaf(
            RelOperatorView::Scan(ScanView { table_index, columns, limit: None }),
        ),
        plan,
    )
}

/// Joins a plan with the table of the correlated columns, so that each has a derived column.
pub open spec fn cross_with_outer(
    state: FlattenState,
    correlated: Seq<usize>,
    plan: SExprView,
) -> Run<SExprView> {
    match (
        table_of(state.columns, correlated),
        add_derived_columns(state.columns, state.derived, correlated),
    ) {
        (Some(table_index), Some((columns, derived))) => Run::Done(
            FlattenState { columns, derived, ..state },
            cross_join(table_index, values_of(derived).to_set(), plan),
        ),
        _ => Run::Undefined,
    }
}

/// The derived columns once an equation between two columns was met: where one side is correlated
/// and the other is not, the other is its derived column.
pub open spec fn bind_equated(
    derived: Seq<(usize, usize)>,
    correlated: Seq<usize>,
    left: usize,
    right: usize,
) -> Seq<(usize, usize)> {
    if correlated.contains(left) && !correlated.contains(right) {
        bind(derived, left, right)
    } else if !correlated.contains(left) && correlated.contains(right) {
        bind(derived, right, left)
    } else {
        derived
    }
}

/// The end of a look at the predicates of a filter.
pub enum Equated {
    /// Every predicate that refers to a correlated column equates two columns. It leaves these
    /// derived columns.
    All(Seq<(usize, usize)>),
    /// Some predicate does not. The predicates before the first such leave these derived columns.
    NotAll(Seq<(usize, usize)>),
    /// An equation lacks a side.
    Undefined,
}

/// Looks at one predicate.
pub open spec fn equate(
    derived: Seq<(usize, usize)>,
    correlated: Seq<usize>,
    predicate: ScalarView,
) -> Equated {
    if !touches(used_columns(predicate), correlated) {
        Equated::All(derived)
    } else {
        match predicate {
            ScalarView::FunctionCall(func) => if func.func_name == func_name(
                ComparisonOp::Equal,
            ) {
                if func.arguments.len() < 2 {
                    Equated::Undefined
                } else {
                    match (func.arguments[0], func.arguments[1]) {
                        (
                            ScalarView::BoundColumnRef(left),
                            ScalarView::BoundColumnRef(right),
                        ) => Equated::All(
                            bind_equated(
                                derived,
                                correlated,
                                left.column.index,
                                right.column.index,
                            ),
                        ),
                        _ => Equated::NotAll(derived),
                    }
                }
            } else {
                Equated::NotAll(derived)
            },
            _ => Equated::NotAll(derived),
        }
    }
}

/// Looks at the predicates of a filter from left to right.
pub open spec fn equate_all(
    derived: Seq<(usize, usize)>,
    correlated: Seq<usize>,
    predicates: Seq<ScalarView>,
) -> Equated
    decreases predicates.len(),
{
    if predicates.len() == 0 {
        Equated::All(derived)
    } else {
        match equate_all(derived, correlated, predicates.drop_last()) {
            Equated::All(next) => equate(next, correlated, predicates.last()),
            other => other,
        }
    }
}

/// The state and the need for a cross join with which flattening goes on beneath a filter.
pub open spec fn enter_filter(
    state: FlattenState,
    correlated: Seq<usize>,
    predicates: Seq<ScalarView>,
    need_cross_join: bool,
) -> Run<bool> {
    if need_cross_join {
        Run::Done(state, true)
    } else {
        match equate_all(state.derived, correlated, predicates) {
            Equated::All(derived) => Run::Done(FlattenState { derived, ..state }, false),
            Equated::NotAll(_) => Run::Done(
                FlattenState { derived: Seq::empty(), ..state },
                true,
            ),
            Equated::Undefined => Run::Undefined,
        }
    }
}

/// Flattens an input of a plan.
pub open spec fn flatten_child(
    state: FlattenState,
    correlated: Seq<usize>,
    plan: SExprView,
    position: usize,
    need_cross_join: bool,
) -> Run<SExprView>
    decreases plan, 0nat,
{
    if position < plan.children.len() {
        flatten(state, correlated, plan.children[position as int], need_cross_join)
    } else {
        Run::Failed(state, ErrorCode::InvalidChild(position))
    }
}

/// Flattens both inputs of a plan and puts an operator over them.
pub open spec fn flatten_children(
    state: FlattenState,
    correlated: Seq<usize>,
    plan: SExprView,
    need_cross_join: bool,
    operator: RelOperatorView,
) -> Run<SExprView>
    decreases plan, 1nat,
{
    match flatten_child(state, correlated, plan, 0, need_cross_join) {
        Run::Done(next, left) => match flatten_child(next, correlated, plan, 1, need_cross_join) {
            Run::Done(last, right) => Run::Done(last, SExprView::binary(operator, left, right)),
            other => other,
        },
        other => other,
    }
}

/// Flattens an input and puts an operator over it.
pub open spec fn flatten_under(
    state: FlattenState,
    correlated: Seq<usize>,
    plan: SExprView,
    need_cross_join: bool,
    operator: RelOperatorView,
) -> Run<SExprView>
    decreases plan, 1nat,
{
    match flatten_child(state, correlated, plan, 0, need_cross_join) {
        Run::Done(next, child) => Run::Done(next, SExprView::unary(operator, child)),
        other => other,
    }
}

/// Flattening over an operator that computes columns, once its input is flat.
pub open spec fn flatten_eval_scalar(
    columns: Seq<ColumnEntryView>,
    derived: Seq<(usize, usize)>,
    correlated: Seq<usize>,
    items: Seq<ScalarItemView>,
    child: SExprView,
) -> Outcome<SExprView> {
    match flatten_items(columns, derived, correlated, items) {
        Outcome::Done(flat) => if all_known(columns, values_of(derived)) {
            Outcome::Done(
                SExprView::unary(
                    RelOperatorView::EvalScalar(flat + derived_items(columns, derived)),
                    child,
                ),
            )
        } else {
            Outcome::Undefined
        },
        Outcome::Failed(e) => Outcome::Failed(e),
        Outcome::Undefined => Outcome::Undefined,
    }
}

/// Flattening over a filter, once its input is flat.
pub open spec fn flatten_filter(
    columns: Seq<ColumnEntryView>,
    derived: Seq<(usize, usize)>,
    correlated: Seq<usize>,
    filter: FilterView,
    child: SExprView,
) -> Outcome<SExprView> {
    match flatten_scalars(columns, derived, correlated, filter.predicates) {
        Outcome::Done(predicates) => Outcome::Done(
            SExprView::unary(
                RelOperatorView::Filter(FilterView { predicates, ..filter }),
                child,
            ),
        ),
        Outcome::Failed(e) => Outcome::Failed(e),
        Outcome::Undefined => Outcome::Undefined,
    }
}

/// Flattening over an aggregation, once its input is flat.
pub open spec fn flatten_aggregate(
    state: FlattenState,
    correlated: Seq<usize>,
    aggregate: AggregateView,
    child: SExprView,
) -> Run<SExprView> {
    match flatten_items(state.columns, state.derived, correlated, aggregate.group_items) {
        Outcome::Done(groups) => if all_known(state.columns, values_of(state.derived)) {
            match flatten_aggregates(state, correlated, aggregate.aggregate_functions) {
                Run::Done(next, functions) => Run::Done(
                    next,
                    SExprView::unary(
                        RelOperatorView::Aggregate(
                            AggregateView {
                                mode: AggregateMode::Initial,
                                group_items: groups + derived_group_items(
                                    state.columns,
                                    state.derived,
                                ),
                                aggregate_functions: functions,
                                ..aggregate
                            },
                        ),
                        child,
                    ),
                ),
                Run::Failed(next, e) => Run::Failed(next, e),
                Run::Undefined => Run::Undefined,
            }
        } else {
            Run::Undefined
        },
        Outcome::Failed(e) => Run::Failed(state, e),
        Outcome::Undefined => Run::Undefined,
    }
}

/// The columns that an aggregation names: those that its scalars refer to and those that their
/// values go to.
pub open spec fn aggregate_used_columns(aggregate: AggregateView) -> Set<usize> {
    eval_used_columns(aggregate.group_items).union(eval_used_columns(aggregate.aggregate_functions))
}

/// The columns that items name: those that their scalars refer to and those that their values go
/// to.
pub open spec fn eval_used_columns(items: Seq<ScalarItemView>) -> Set<usize> {
    item_columns(items).union(items_used_columns(items))
}

/// Flattens a plan. A plan that takes no column from around it stays as it is, unless something
/// above it needs the correlated columns; then it is joined with their table. Any other plan is
/// flattened from its inputs upwards.
pub open spec fn flatten(
    state: FlattenState,
    correlated: Seq<usize>,
    plan: SExprView,
    need_cross_join: bool,
) -> Run<SExprView>
    decreases plan, 2nat,
{
    match relational_prop(plan) {
        Err(e) => Run::Failed(state, e),
        Ok(prop) => if prop.outer_columns == Set::<usize>::empty() {
            if need_cross_join {
                cross_with_outer(state, correlated, plan)
            } else {
                Run::Done(state, plan)
            }
        } else {
            match plan.plan {
                RelOperatorView::EvalScalar(items) => {
                    let need = need_cross_join || touches(eval_used_columns(items), correlated);
                    match flatten_child(state, correlated, plan, 0, need) {
                        Run::Done(next, child) => kept(
                            next,
                            flatten_eval_scalar(
                                next.columns,
                                next.derived,
                                correlated,
                                items,
                                child,
                            ),
                        ),
                        other => other,
                    }
                },
                RelOperatorView::Filter(filter) => match enter_filter(
                    state,
                    correlated,
                    filter.predicates,
                    need_cross_join,
                ) {
                    Run::Done(entered, need) => match flatten_child(
                        entered,
                        correlated,
                        plan,
                        0,
                        need,
                    ) {
                        Run::Done(next, child) => kept(
                            next,
                            flatten_filter(
                                next.columns,
                                next.derived,
                                correlated,
                                filter,
                                child,
                            ),
                        ),
                        other => other,
                    },
                    Run::Failed(entered, e) => Run::Failed(entered, e),
                    Run::Undefined => Run::Undefined,
                },
                RelOperatorView::Join(join) => flatten_children(
                    state,
                    correlated,
                    plan,
                    need_cross_join || touches(join_used_columns(join), correlated),
                    RelOperatorView::Join(
                        JoinView {
                            from_correlated_subquery: false,
                            contain_runtime_filter: false,
                            ..join
                        },
                    ),
                ),
                RelOperatorView::Aggregate(aggregate) => {
                    let need = need_cross_join || touches(
                        aggregate_used_columns(aggregate),
                        correlated,
                    );
                    match flatten_child(state, correlated, plan, 0, need) {
                        Run::Done(next, child) => flatten_aggregate(
                            next,
                            correlated,
                            aggregate,
                            child,
                        ),
                        other => other,
                    }
                },
                RelOperatorView::Sort(_, _) => flatten_under(
                    state,
                    correlated,
                    plan,
                    need_cross_join,
                    plan.plan,
                ),
                RelOperatorView::Limit(_) => flatten_under(
                    state,
                    correlated,
                    plan,
                    need_cross_join,
                    plan.plan,
                ),
                RelOperatorView::UnionAll(pairs) => flatten_children(
                    state,
                    correlated,
                    plan,
                    need_cross_join || touches(union_used_columns(pairs), correlated),
                    plan.plan,
                ),
                RelOperatorView::Scan(_) => Run::Failed(state, ErrorCode::InvalidPlan),
                RelOperatorView::Opaque(_) => Run::Failed(state, ErrorCode::InvalidPlan),
            }
        },
    }
}

/// Whether each correlated column and its derived column are columns of the query.
pub open spec fn equi_defined(
    columns: Seq<ColumnEntryView>,
    derived: Seq<(usize, usize)>,
    correlated: Seq<usize>,
) -> bool {
    forall|i: int|
        0 <= i < correlated.len() ==> {
            &&& #[trigger] correlated[i] < columns.len()
            &&& lookup(derived, correlated[i]) is Some
            &&& lookup(derived, correlated[i])->0 < columns.len()
        }
}

/// References to the correlated columns.
pub open spec fn outer_refs(columns: Seq<ColumnEntryView>, span: Span, correlated: Seq<usize>) -> Seq<
    ScalarView,
> {
    correlated.map_values(|c: usize| column_ref(columns, span, c, Visibility::Visible))
}

/// References to the derived columns of the correlated columns.
pub open spec fn inner_refs(
    columns: Seq<ColumnEntryView>,
    derived: Seq<(usize, usize)>,
    span: Span,
    correlated: Seq<usize>,
) -> Seq<ScalarView> {
    correlated.map_values(
        |c: usize| column_ref(columns, span, lookup(derived, c)->0, Visibility::Visible),
    )
}

/// A join of the query around a subquery with the flat subquery: the correlated columns equal
/// their derived columns.
pub open spec fn correlated_join(
    columns: Seq<ColumnEntryView>,
    derived: Seq<(usize, usize)>,
    span: Span,
    correlated: Seq<usize>,
    non_equi_conditions: Seq<ScalarView>,
    join_type: JoinType,
    marker_index: Option<usize>,
) -> RelOperatorView {
    RelOperatorView::Join(
        JoinView {
            left_conditions: outer_refs(columns, span, correlated),
            right_conditions: inner_refs(columns, derived, span, correlated),
            non_equi_conditions,
            join_type,
            marker_index,
            from_correlated_subquery: true,
            contain_runtime_filter: false,
        },
    )
}

/// The column for the mark of a subquery, with the columns of the query once it is there: the one
/// that the query has for the subquery's value, or a new one.
pub open spec fn marker_column(columns: Seq<ColumnEntryView>, subquery: SubqueryExpr) -> (
    Seq<ColumnEntryView>,
    usize,
) {
    match subquery.projection_index {
        Some(index) => (columns, index),
        None => (
            with_derived(columns, "marker"@, DataType::Nullable(Box::new(DataType::Boolean))),
            columns.len() as usize,
        ),
    }
}

/// The comparison of an `ANY` subquery, over the column that the subquery gives.
pub open spec fn any_condition(subquery: SubqueryExpr) -> ScalarView {
    ScalarView::FunctionCall(
        FunctionCallView {
            span: subquery.span,
            func_name: func_name(subquery.compare_op->0),
            params: Seq::empty(),
            arguments: seq![
                subquery.child_expr->0@,
                ScalarView::BoundColumnRef(
                    BoundColumnRefView {
                        span: subquery.span,
                        column: ColumnBindingView {
                            database_name: None,
                            table_name: None,
                            table_index: None,
                            column_name: subquery_column_name(subquery.output_column.index),
                            index: subquery.output_column.index,
                            data_type: *subquery.output_column.data_type,
                            visibility: Visibility::Visible,
                        },
                    },
                ),
            ],
        },
    )
}

/// A subquery that gives one value becomes a single join.
pub open spec fn decorrelate_scalar(state: FlattenState, left: SExprView, subquery: SubqueryExpr) -> Run<
    (SExprView, UnnestResult),
> {
    let correlated = subquery.outer_columns.order();
    match flatten(state, correlated, subquery.subquery@, false) {
        Run::Done(next, flat) => if equi_defined(next.columns, next.derived, correlated) {
            Run::Done(
                next,
                (
                    SExprView::binary(
                        correlated_join(
                            next.columns,
                            next.derived,
                            subquery.span,
                            correlated,
                            Seq::empty(),
                            JoinType::Single,
                            None,
                        ),
                        left,
                        flat,
                    ),
                    UnnestResult::SingleJoin,
                ),
            )
        } else {
            Run::Undefined
        },
        Run::Failed(next, e) => Run::Failed(next, e),
        Run::Undefined => Run::Undefined,
    }
}

/// A subquery that is asked for a truth value becomes a mark join.
pub open spec fn decorrelate_mark(
    state: FlattenState,
    left: SExprView,
    subquery: SubqueryExpr,
    non_equi_conditions: Seq<ScalarView>,
) -> Run<(SExprView, UnnestResult)> {
    let correlated = subquery.outer_columns.order();
    match flatten(state, correlated, subquery.subquery@, false) {
        Run::Done(next, flat) => if equi_defined(next.columns, next.derived, correlated) {
            let (columns, marker_index) = marker_column(next.columns, subquery);
            Run::Done(
                FlattenState { columns, ..next },
                (
                    SExprView::binary(
                        correlated_join(
                            next.columns,
                            next.derived,
                            subquery.span,
                            correlated,
                            non_equi_conditions,
                            JoinType::RightMark,
                            Some(marker_index),
                        ),
                        left,
                        flat,
                    ),
                    UnnestResult::MarkJoin { marker_index },
                ),
            )
        } else {
            Run::Undefined
        },
        Run::Failed(next, e) => Run::Failed(next, e),
        Run::Undefined => Run::Undefined,
    }
}

/// Whether a predicate compares the two inputs of a join for equality.
pub open spec fn is_equi(predicate: ScalarView, left: Set<usize>, right: Set<usize>) -> bool {
    match classify(predicate, left, right) {
        JoinPredicateView::Both { left: _, right: _, op } => op == ComparisonOp::Equal,
        _ => false,
    }
}

/// Whether a predicate is neither about one input of a join nor an equality of both.
pub open spec fn is_non_equi(predicate: ScalarView, left: Set<usize>, right: Set<usize>) -> bool {
    match classify(predicate, left, right) {
        JoinPredicateView::Both { left: _, right: _, op } => op != ComparisonOp::Equal,
        JoinPredicateView::Other(_) => true,
        _ => false,
    }
}

/// The predicates about the left input.
pub open spec fn left_filters(predicates: Seq<ScalarView>, left: Set<usize>, right: Set<usize>) -> Seq<
    ScalarView,
> {
    predicates.filter(|p: ScalarView| classify(p, left, right) is Left)
}

/// The predicates about the right input.
pub open spec fn right_filters(
    predicates: Seq<ScalarView>,
    left: Set<usize>,
    right: Set<usize>,
) -> Seq<ScalarView> {
    predicates.filter(|p: ScalarView| classify(p, left, right) is Right)
}

/// The left sides of the equalities.
pub open spec fn left_keys(predicates: Seq<ScalarView>, left: Set<usize>, right: Set<usize>) -> Seq<
    ScalarView,
> {
    predicates.filter(|p: ScalarView| is_equi(p, left, right)).map_values(
        |p: ScalarView| classify(p, left, right)->left,
    )
}

/// The right sides of the equalities.
pub open spec fn right_keys(predicates: Seq<ScalarView>, left: Set<usize>, right: Set<usize>) -> Seq<
    ScalarView,
> {
    predicates.filter(|p: ScalarView| is_equi(p, left, right)).map_values(
        |p: ScalarView| classify(p, left, right)->right,
    )
}

/// The other predicates about both inputs.
pub open spec fn non_equi(predicates: Seq<ScalarView>, left: Set<usize>, right: Set<usize>) -> Seq<
    ScalarView,
> {
    predicates.filter(|p: ScalarView| is_non_equi(p, left, right))
}

/// A plan under a filter, unless the filter is empty.
pub open spec fn filtered(predicates: Seq<ScalarView>, plan: SExprView) -> SExprView {
    if predicates.len() == 0 {
        plan
    } else {
        SExprView::unary(
            RelOperatorView::Filter(FilterView { predicates, is_having: false }),
            plan,
        )
    }
}

/// Whether a plan computes columns over a filter over a table.
pub open spec fn is_filtered_scan(plan: SExprView) -> bool {
    &&& plan.plan is EvalScalar
    &&& plan.children.len() == 1
    &&& plan.children[0].plan is Filter
    &&& plan.children[0].children.len() == 1
    &&& plan.children[0].children[0].plan is Scan
    &&& plan.children[0].children[0].children.len() == 0
}

/// The join that an existence test becomes, with the subquery's filter taken apart.
pub open spec fn semi_join(
    join_type: JoinType,
    input: SExprView,
    plan: SExprView,
    left: Set<usize>,
    right: Set<usize>,
) -> SExprView {
    let predicates = plan.children[0].plan->Filter_0.predicates;
    let table = SExprView::leaf(plan.children[0].children[0].plan);
    SExprView::binary(
        RelOperatorView::Join(
            JoinView {
                left_conditions: left_keys(predicates, left, right),
                right_conditions: right_keys(predicates, left, right),
                non_equi_conditions: non_equi(predicates, left, right),
                join_type,
                marker_index: None,
                from_correlated_subquery: true,
                contain_runtime_filter: false,
            },
        ),
        filtered(left_filters(predicates, left, right), input),
        filtered(
            right_filters(predicates, left, right),
            SExprView::unary(plan.plan, table),
        ),
    )
}

/// A semi join or an anti join for a subquery that tests for existence, whose plan computes columns
/// over a filter over a table, and which has all its correlated columns in the filter. Nothing for
/// any other subquery.
pub open spec fn decorrelate_simple(input: SExprView, subquery: SubqueryExpr) -> Result<
    Option<SExprView>,
    ErrorCode,
> {
    let plan = subquery.subquery@;
    if subquery.outer_columns.order().len() == 0 || !is_filtered_scan(plan) || touches(
        items_used_columns(plan.plan->EvalScalar_0),
        subquery.outer_columns.order(),
    ) {
        Ok(None)
    } else {
        match (relational_prop(plan.children[0]), relational_prop(input)) {
            (Err(e), _) => Err(e),
            (Ok(_), Err(e)) => Err(e),
            (Ok(filter_prop), Ok(input_prop)) => {
                let left = input_prop.output_columns;
                let right = filter_prop.output_columns;
                match subquery.typ {
                    SubqueryType::Exists => Ok(
                        Some(semi_join(JoinType::LeftSemi, input, plan, left, right)),
                    ),
                    SubqueryType::NotExists => Ok(
                        Some(semi_join(JoinType::LeftAnti, input, plan, left, right)),
                    ),
                    _ => Ok(None),
                }
            },
        }
    }
}

/// What a correlated subquery becomes, next to the plan `left` of the query around it.
pub open spec fn decorrelate(
    state: FlattenState,
    left: SExprView,
    subquery: SubqueryExpr,
    is_conjunctive_predicate: bool,
) -> Run<(SExprView, UnnestResult)> {
    match subquery.typ {
        SubqueryType::Scalar => decorrelate_scalar(state, left, subquery),
        SubqueryType::Exists | SubqueryType::NotExists => if is_conjunctive_predicate {
            match decorrelate_simple(left, subquery) {
                Ok(Some(join)) => Run::Done(state, (join, UnnestResult::SimpleJoin)),
                Ok(None) => decorrelate_mark(state, left, subquery, Seq::empty()),
                Err(e) => Run::Failed(state, e),
            }
        } else {
            decorrelate_mark(state, left, subquery, Seq::empty())
        },
        SubqueryType::Any => match decorrelate_mark(
            state,
            left,
            subquery,
            seq![any_condition(subquery)],
        ) {
            Run::Done(next, join) => if subquery.child_expr is Some && subquery.compare_op is Some {
                Run::Done(next, join)
            } else {
                Run::Undefined
            },
            other => other,
        },
        SubqueryType::All => Run::Undefined,
    }
}

} // verus!
