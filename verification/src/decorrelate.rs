//! Turning a correlated subquery into a join.

use std::sync::Arc;
use vstd::prelude::*;

use crate::error::{ErrorCode, Stop};
use crate::join_predicate::{classify, JoinPredicate};
use crate::metadata::Metadata;
use crate::model::{
    any_condition, correlated_join, decorrelate, decorrelate_mark, decorrelate_simple, ended,
    equi_defined, filtered, flatten, inner_refs, is_equi, is_filtered_scan, is_non_equi,
    left_filters, left_keys, marker_column, non_equi, outer_refs, right_filters, right_keys, Run,
};
use crate::names::name_subquery_column;
use crate::plan::{
    columns_used_by_items, rel_op, Filter, Join, JoinType, RelOp, RelOperator, RelOperatorView,
};
use crate::property::RelationalProperty;
use crate::rewriter::{FlattenInfo, SubqueryRewriter, UnnestResult};
use crate::s_expr::{matches_pattern, PatternPlan, SExpr, SExprView};
use crate::scalar::{
    lemma_scalar_views, lemma_scalar_views_push, scalar_views, BoundColumnRef, ColumnBinding,
    ComparisonOp, FunctionCall, ScalarExpr, ScalarView, SubqueryExpr, SubqueryType,
};
use crate::types::{DataType, Visibility};

verus! {

/// Decorrelates the subqueries inside a plan with a walk over it. The walk `rewrite` runs once, on
/// the plan and a fresh rewriter: one over the columns of the query that has derived no column yet.
/// Its result is handed back, with the columns of the query as its rewriter leaves them.
pub fn decorrelate_subquery<F: FnOnce(SubqueryRewriter, &SExpr) -> (
    SubqueryRewriter,
    Result<SExpr, ErrorCode>,
)>(metadata: Metadata, s_expr: SExpr, rewrite: F) -> (r: (Metadata, Result<SExpr, ErrorCode>))
    requires
        forall|rewriter: SubqueryRewriter|
            rewriter.metadata == metadata && rewriter.derived_columns@ == Seq::<
                (usize, usize),
            >::empty() ==> #[trigger] call_requires(rewrite, (rewriter, &s_expr)),
    ensures
        exists|fresh: SubqueryRewriter, used: SubqueryRewriter|
            {
                &&& fresh.metadata == metadata
                &&& fresh.derived_columns@ == Seq::<(usize, usize)>::empty()
                &&& used.metadata == r.0
                &&& #[trigger] call_ensures(rewrite, (fresh, &s_expr), (used, r.1))
            },
{
    let rewriter = SubqueryRewriter::new(metadata);
    let ghost fresh = rewriter;
    let (rewriter, result) = rewrite(rewriter, &s_expr);
    let r = (rewriter.metadata, result);
    assert(call_ensures(rewrite, (fresh, &s_expr), (rewriter, r.1)));
    r
}

/// The contents of a result.
pub open spec fn option_result(result: Result<Option<SExpr>, ErrorCode>) -> Result<
    Option<SExprView>,
    ErrorCode,
> {
    match result {
        Ok(Some(plan)) => Ok(Some(plan@)),
        Ok(None) => Ok(None),
        Err(e) => Err(e),
    }
}

/// The contents of a result.
pub open spec fn unnest_result(result: Result<(SExpr, UnnestResult), Stop>) -> Result<
    (SExprView, UnnestResult),
    Stop,
> {
    match result {
        Ok((plan, unnest)) => Ok((plan@, unnest)),
        Err(stop) => Err(stop),
    }
}

fn pattern(plan_type: RelOp) -> (r: PatternPlan)
    ensures
        r.plan_type == plan_type,
        r.children@ == Seq::<PatternPlan>::empty(),
{
    PatternPlan { plan_type, children: Vec::new() }
}

fn pattern_over(plan_type: RelOp, child: PatternPlan) -> (r: PatternPlan)
    ensures
        r.plan_type == plan_type,
        r.children@ == seq![child],
{
    let mut children: Vec<PatternPlan> = Vec::new();
    children.push(child);
    PatternPlan { plan_type, children }
}

/// Whether a plan computes columns over a filter over a table.
fn matches_filtered_scan(plan: &SExpr) -> (r: bool)
    ensures
        r == is_filtered_scan(plan@),
{
    let scan = pattern(RelOp::Scan);
    let filter = pattern_over(RelOp::Filter, scan);
    let eval_scalar = pattern_over(RelOp::EvalScalar, filter);
    let r = plan.match_pattern(&eval_scalar);
    proof {
        let top = plan@;
        if top.children.len() == 1 {
            let middle = top.children[0];
            assert(eval_scalar.children@[0] == filter);
            assert(matches_pattern(top, eval_scalar) == (rel_op(top.plan) == RelOp::EvalScalar
                && matches_pattern(middle, filter)));
            if middle.children.len() == 1 {
                let bottom = middle.children[0];
                assert(filter.children@[0] == scan);
                assert(matches_pattern(middle, filter) == (rel_op(middle.plan) == RelOp::Filter
                    && matches_pattern(bottom, scan)));
            }
        }
    }
    r
}

/// The predicates of a filter, sorted by the inputs of a join that they refer to.
struct SortedPredicates {
    left_conditions: Vec<ScalarExpr>,
    right_conditions: Vec<ScalarExpr>,
    non_equi_conditions: Vec<ScalarExpr>,
    left_filters: Vec<ScalarExpr>,
    right_filters: Vec<ScalarExpr>,
}

impl SortedPredicates {
    spec fn sorts(&self, predicates: Seq<ScalarView>, left: Set<usize>, right: Set<usize>) -> bool {
        &&& scalar_views(self.left_conditions@) == left_keys(predicates, left, right)
        &&& scalar_views(self.right_conditions@) == right_keys(predicates, left, right)
        &&& scalar_views(self.non_equi_conditions@) == non_equi(predicates, left, right)
        &&& scalar_views(self.left_filters@) == left_filters(predicates, left, right)
        &&& scalar_views(self.right_filters@) == right_filters(predicates, left, right)
    }
}

/// Sorting one more predicate.
proof fn lemma_sort_step(
    predicates: Seq<ScalarView>,
    n: int,
    left: Set<usize>,
    right: Set<usize>,
)
    requires
        0 <= n < predicates.len(),
    ensures
        ({
            let before = predicates.take(n);
            let after = predicates.take(n + 1);
            let p = predicates[n];
            let sorted = classify(p, left, right);
            &&& left_filters(after, left, right) == if sorted is Left {
                left_filters(before, left, right).push(p)
            } else {
                left_filters(before, left, right)
            }
            &&& right_filters(after, left, right) == if sorted is Right {
                right_filters(before, left, right).push(p)
            } else {
                right_filters(before, left, right)
            }
            &&& non_equi(after, left, right) == if is_non_equi(p, left, right) {
                non_equi(before, left, right).push(p)
            } else {
                non_equi(before, left, right)
            }
            &&& left_keys(after, left, right) == if is_equi(p, left, right) {
                left_keys(before, left, right).push(sorted->left)
            } else {
                left_keys(before, left, right)
            }
            &&& right_keys(after, left, right) == if is_equi(p, left, right) {
                right_keys(before, left, right).push(sorted->right)
            } else {
                right_keys(before, left, right)
            }
        }),
{
    reveal(Seq::filter);
    let before = predicates.take(n);
    let after = predicates.take(n + 1);
    assert(after.drop_last() =~= before);
    assert(after.last() == predicates[n]);
    assert(left_keys(after, left, right) =~= if is_equi(predicates[n], left, right) {
        left_keys(before, left, right).push(classify(predicates[n], left, right)->left)
    } else {
        left_keys(before, left, right)
    });
    assert(right_keys(after, left, right) =~= if is_equi(predicates[n], left, right) {
        right_keys(before, left, right).push(classify(predicates[n], left, right)->right)
    } else {
        right_keys(before, left, right)
    });
}

fn sort_predicates(
    predicates: &Vec<ScalarExpr>,
    left_prop: &RelationalProperty,
    right_prop: &RelationalProperty,
) -> (r: SortedPredicates)
    ensures
        r.sorts(
            scalar_views(predicates@),
            left_prop@.output_columns,
            right_prop@.output_columns,
        ),
{
    let ghost views = scalar_views(predicates@);
    let ghost left_columns = left_prop@.output_columns;
    let ghost right_columns = right_prop@.output_columns;
    let mut sorted = SortedPredicates {
        left_conditions: Vec::new(),
        right_conditions: Vec::new(),
        non_equi_conditions: Vec::new(),
        left_filters: Vec::new(),
        right_filters: Vec::new(),
    };
    let mut i: usize = 0;
    proof {
        reveal(Seq::filter);
        let none = Seq::<ScalarView>::empty();
        assert(views.take(0) =~= none);
        assert(scalar_views(sorted.left_conditions@) =~= none);
        assert(scalar_views(sorted.right_conditions@) =~= none);
        assert(scalar_views(sorted.non_equi_conditions@) =~= none);
        assert(scalar_views(sorted.left_filters@) =~= none);
        assert(scalar_views(sorted.right_filters@) =~= none);
        assert(left_keys(none, left_columns, right_columns) =~= none);
        assert(right_keys(none, left_columns, right_columns) =~= none);
    }
    while i < predicates.len()
        invariant
            i <= predicates@.len(),
            views == scalar_views(predicates@),
            left_columns == left_prop@.output_columns,
            right_columns == right_prop@.output_columns,
            sorted.sorts(views.take(i as int), left_columns, right_columns),
        decreases predicates.len() - i,
    {
        let pred = &predicates[i];
        proof {
            lemma_scalar_views(predicates@);
            lemma_sort_step(views, i as int, left_columns, right_columns);
        }
        match JoinPredicate::new(pred, left_prop, right_prop) {
            JoinPredicate::Left(filter) => {
                let copy = filter.copy();
                proof {
                    lemma_scalar_views_push(sorted.left_filters@, copy);
                }
                sorted.left_filters.push(copy);
            },
            JoinPredicate::Right(filter) => {
                let copy = filter.copy();
                proof {
                    lemma_scalar_views_push(sorted.right_filters@, copy);
                }
                sorted.right_filters.push(copy);
            },
            JoinPredicate::Other(pred) => {
                let copy = pred.copy();
                proof {
                    lemma_scalar_views_push(sorted.non_equi_conditions@, copy);
                }
                sorted.non_equi_conditions.push(copy);
            },
            JoinPredicate::Both { left, right, op } => {
                if op == ComparisonOp::Equal {
                    let left_copy = left.copy();
                    let right_copy = right.copy();
                    proof {
                        lemma_scalar_views_push(sorted.left_conditions@, left_copy);
                        lemma_scalar_views_push(sorted.right_conditions@, right_copy);
                    }
                    sorted.left_conditions.push(left_copy);
                    sorted.right_conditions.push(right_copy);
                } else {
                    let copy = pred.copy();
                    proof {
                        lemma_scalar_views_push(sorted.non_equi_conditions@, copy);
                    }
                    sorted.non_equi_conditions.push(copy);
                }
            },
        }
        i += 1;
    }
    assert(views.take(i as int) =~= views);
    sorted
}

fn filter_over(predicates: Vec<ScalarExpr>, plan: SExpr) -> (r: SExpr)
    ensures
        r@ == filtered(scalar_views(predicates@), plan@),
{
    proof {
        lemma_scalar_views(predicates@);
    }
    if predicates.len() == 0 {
        return plan;
    }
    SExpr::create_unary(
        Arc::new(RelOperator::Filter(Filter { predicates, is_having: false })),
        Arc::new(plan),
    )
}

impl SubqueryRewriter {
    /// Tries to turn a correlated subquery that tests for existence into a semi join or an anti
    /// join. It does so only where the plan of the subquery is the simplest one that such a
    /// subquery can have, columns computed over a filter over a table, and where all the correlated
    /// columns are in the filter.
    pub fn try_decorrelate_simple_subquery(&self, input: &SExpr, subquery: &SubqueryExpr) -> (r: Result<
        Option<SExpr>,
        ErrorCode,
    >)
        ensures
            option_result(r) == decorrelate_simple(input@, *subquery),
    {
        if subquery.outer_columns.is_empty() {
            return Ok(None);
        }
        if !matches_filtered_scan(&subquery.subquery) {
            return Ok(None);
        }
        // All the outer columns have to be in the filter: neither above it nor beneath it.
        if let RelOperator::EvalScalar(eval_scalar) = &*subquery.subquery.plan {
            if columns_used_by_items(&eval_scalar.items).intersects(&subquery.outer_columns) {
                return Ok(None);
            }
        }
        let filter_tree = subquery.subquery.child(0)?;
        let filter_prop = filter_tree.derive_relational_prop()?;
        let filter_child_prop = filter_tree.derive_relational_prop_child(0)?;
        let input_prop = input.derive_relational_prop()?;
        if !filter_child_prop.outer_columns.is_empty() {
            return Ok(None);
        }
        let filter = match &*filter_tree.plan {
            RelOperator::Filter(filter) => filter,
            _ => {
                return Ok(None);
            },
        };
        let sorted = sort_predicates(&filter.predicates, &input_prop, &filter_prop);
        let join_type = match subquery.typ {
            SubqueryType::Any | SubqueryType::All | SubqueryType::Scalar => {
                return Ok(None);
            },
            SubqueryType::Exists => JoinType::LeftSemi,
            SubqueryType::NotExists => JoinType::LeftAnti,
        };
        let join = Join {
            left_conditions: sorted.left_conditions,
            right_conditions: sorted.right_conditions,
            non_equi_conditions: sorted.non_equi_conditions,
            join_type,
            marker_index: None,
            from_correlated_subquery: true,
            contain_runtime_filter: false,
        };
        let left_child = filter_over(sorted.left_filters, input.share());
        // The subquery without its filter.
        let table = SExpr::create_leaf(filter_tree.child(0)?.plan.clone());
        let right_child = filter_over(
            sorted.right_filters,
            SExpr::create_unary(subquery.subquery.plan.clone(), Arc::new(table)),
        );
        Ok(
            Some(
                SExpr::create_binary(
                    Arc::new(RelOperator::Join(join)),
                    Arc::new(left_child),
                    Arc::new(right_child),
                ),
            ),
        )
    }

    fn marker_index(&mut self, subquery: &SubqueryExpr) -> (r: usize)
        ensures
            final(self).derived_columns == old(self).derived_columns,
            marker_column(old(self).metadata@, *subquery) == (final(self).metadata@, r),
    {
        match subquery.projection_index {
            Some(index) => index,
            None => self.metadata.add_derived_column(
                "marker".to_string(),
                DataType::Nullable(Box::new(DataType::Boolean)),
            ),
        }
    }

    fn correlated_join(
        &self,
        subquery: &SubqueryExpr,
        non_equi_conditions: Vec<ScalarExpr>,
        join_type: JoinType,
        marker_index: Option<usize>,
    ) -> (r: Result<Join, Stop>)
        ensures
            if equi_defined(
                self.metadata@,
                self.derived_columns@,
                subquery.outer_columns.order(),
            ) {
                &&& r matches Ok(join)
                &&& RelOperatorView::Join(join@) == correlated_join(
                    self.metadata@,
                    self.derived_columns@,
                    subquery.span,
                    subquery.outer_columns.order(),
                    scalar_views(non_equi_conditions@),
                    join_type,
                    marker_index,
                )
            } else {
                r == Err::<Join, Stop>(Stop::Undefined)
            },
    {
        let correlated_columns = &subquery.outer_columns;
        let mut left_conditions: Vec<ScalarExpr> = Vec::with_capacity(correlated_columns.len());
        let mut right_conditions: Vec<ScalarExpr> = Vec::with_capacity(correlated_columns.len());
        let ghost none = Seq::<ScalarView>::empty();
        proof {
            assert(scalar_views(left_conditions@) =~= none);
            assert(scalar_views(right_conditions@) =~= none);
        }
        self.add_equi_conditions(
            subquery.span,
            correlated_columns,
            &mut right_conditions,
            &mut left_conditions,
        )?;
        proof {
            assert(scalar_views(left_conditions@) =~= outer_refs(
                self.metadata@,
                subquery.span,
                correlated_columns.order(),
            ));
            assert(scalar_views(right_conditions@) =~= inner_refs(
                self.metadata@,
                self.derived_columns@,
                subquery.span,
                correlated_columns.order(),
            ));
        }
        Ok(
            Join {
                left_conditions,
                right_conditions,
                non_equi_conditions,
                join_type,
                marker_index,
                from_correlated_subquery: true,
                contain_runtime_filter: false,
            },
        )
    }

    fn decorrelate_into_mark_join(
        &mut self,
        left: &SExpr,
        subquery: &SubqueryExpr,
        flatten_info: &mut FlattenInfo,
        non_equi_conditions: Vec<ScalarExpr>,
    ) -> (r: Result<(SExpr, UnnestResult), Stop>)
        ensures
            decorrelate_mark(
                old(self).state(*old(flatten_info)),
                left@,
                *subquery,
                scalar_views(non_equi_conditions@),
            ) == ended(final(self).state(*final(flatten_info)), unnest_result(r)),
    {
        let flatten_plan = self.flatten(
            &subquery.subquery,
            &subquery.outer_columns,
            flatten_info,
            false,
        )?;
        let mut join = self.correlated_join(
            subquery,
            non_equi_conditions,
            JoinType::RightMark,
            None,
        )?;
        let marker_index: usize = self.marker_index(subquery);
        join.marker_index = Some(marker_index);
        Ok(
            (
                SExpr::create_binary(
                    Arc::new(RelOperator::Join(join)),
                    Arc::new(left.share()),
                    Arc::new(flatten_plan),
                ),
                UnnestResult::MarkJoin { marker_index },
            ),
        )
    }

    fn compare_with_output(&self, subquery: &SubqueryExpr) -> (r: ScalarExpr)
        requires
            subquery.child_expr is Some,
            subquery.compare_op is Some,
        ensures
            r@ == any_condition(*subquery),
    {
        let output_column = &subquery.output_column;
        let data_type: DataType = (&*output_column.data_type).clone();
        let right_condition = ScalarExpr::BoundColumnRef(
            BoundColumnRef {
                span: subquery.span,
                column: ColumnBinding {
                    database_name: None,
                    table_name: None,
                    table_index: None,
                    column_name: name_subquery_column(output_column.index),
                    index: output_column.index,
                    data_type: Box::new(data_type),
                    visibility: Visibility::Visible,
                },
            },
        );
        let child_expr = subquery.child_expr.as_ref().unwrap().copy();
        let op = subquery.compare_op.unwrap();
        let mut arguments: Vec<ScalarExpr> = Vec::new();
        arguments.push(child_expr);
        arguments.push(right_condition);
        proof {
            lemma_scalar_views(arguments@);
            assert(scalar_views(arguments@) =~= seq![child_expr@, right_condition@]);
        }
        ScalarExpr::FunctionCall(
            FunctionCall {
                span: subquery.span,
                func_name: op.to_func_name(),
                params: Vec::new(),
                arguments,
            },
        )
    }

    /// As [`Self::try_decorrelate_subquery`], for any subquery. It says where there is no
    /// rewriting.
    pub fn decorrelate_checked(
        &mut self,
        left: &SExpr,
        subquery: &SubqueryExpr,
        flatten_info: &mut FlattenInfo,
        is_conjunctive_predicate: bool,
    ) -> (r: Result<(SExpr, UnnestResult), Stop>)
        ensures
            subquery.outer_columns.order().no_duplicates(),
            decorrelate(
                old(self).state(*old(flatten_info)),
                left@,
                *subquery,
                is_conjunctive_predicate,
            ) == ended(final(self).state(*final(flatten_info)), unnest_result(r)),
    {
        proof {
            use_type_invariant(&subquery.outer_columns);
        }
        match subquery.typ {
            SubqueryType::Scalar => {
                let flatten_plan = self.flatten(
                    &subquery.subquery,
                    &subquery.outer_columns,
                    flatten_info,
                    false,
                )?;
                let non_equi_conditions: Vec<ScalarExpr> = Vec::new();
                assert(scalar_views(non_equi_conditions@) =~= Seq::<ScalarView>::empty());
                let join = self.correlated_join(
                    subquery,
                    non_equi_conditions,
                    JoinType::Single,
                    None,
                )?;
                Ok(
                    (
                        SExpr::create_binary(
                            Arc::new(RelOperator::Join(join)),
                            Arc::new(left.share()),
                            Arc::new(flatten_plan),
                        ),
                        UnnestResult::SingleJoin,
                    ),
                )
            },
            SubqueryType::Exists | SubqueryType::NotExists => {
                if is_conjunctive_predicate {
                    match self.try_decorrelate_simple_subquery(left, subquery) {
                        Ok(Some(result)) => {
                            return Ok((result, UnnestResult::SimpleJoin));
                        },
                        Ok(None) => {},
                        Err(e) => {
                            return Err(Stop::Failed(e));
                        },
                    }
                }
                let non_equi_conditions: Vec<ScalarExpr> = Vec::new();
                assert(scalar_views(non_equi_conditions@) =~= Seq::<ScalarView>::empty());
                self.decorrelate_into_mark_join(left, subquery, flatten_info, non_equi_conditions)
            },
            SubqueryType::Any => {
                // The comparison is no equality condition even if it compares for equality: it is
                // not null-safe.
                let mut non_equi_conditions: Vec<ScalarExpr> = Vec::new();
                let complete: bool = subquery.child_expr.is_some() && subquery.compare_op.is_some();
                if complete {
                    non_equi_conditions.push(self.compare_with_output(subquery));
                }
                proof {
                    lemma_scalar_views(non_equi_conditions@);
                    if complete {
                        assert(scalar_views(non_equi_conditions@) =~= seq![
                            any_condition(*subquery),
                        ]);
                    }
                }
                let join = self.decorrelate_into_mark_join(
                    left,
                    subquery,
                    flatten_info,
                    non_equi_conditions,
                )?;
                if complete {
                    Ok(join)
                } else {
                    Err(Stop::Undefined)
                }
            },
            SubqueryType::All => Err(Stop::Undefined),
        }
    }

    /// Turns a correlated subquery into a join with the plan of the query around it.
    pub fn try_decorrelate_subquery(
        &mut self,
        left: &SExpr,
        subquery: &SubqueryExpr,
        flatten_info: &mut FlattenInfo,
        is_conjunctive_predicate: bool,
    ) -> (r: Result<(SExpr, UnnestResult), ErrorCode>)
        requires
            !(decorrelate(
                old(self).state(*old(flatten_info)),
                left@,
                *subquery,
                is_conjunctive_predicate,
            ) is Undefined),
        ensures
            subquery.outer_columns.order().no_duplicates(),
            decorrelate(
                old(self).state(*old(flatten_info)),
                left@,
                *subquery,
                is_conjunctive_predicate,
            ) == match r {
                Ok((plan, unnest)) => Run::Done(
                    final(self).state(*final(flatten_info)),
                    (plan@, unnest),
                ),
                Err(e) => Run::Failed(final(self).state(*final(flatten_info)), e),
            },
    {
        match self.decorrelate_checked(left, subquery, flatten_info, is_conjunctive_predicate) {
            Ok(join) => Ok(join),
            Err(Stop::Failed(e)) => Err(e),
            Err(Stop::Undefined) => {
                assert(false);
                Err(ErrorCode::InvalidPlan)
            },
        }
    }
}

} // verus!
