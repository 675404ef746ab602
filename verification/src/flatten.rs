//! Flattening the plan of a correlated subquery.

use std::sync::Arc;
use vstd::prelude::*;

use crate::column_set::ColumnSet;
use crate::column_map::{lookup, values_of};
use crate::error::{ErrorCode, Stop};
use crate::metadata::{table_of, ColumnEntryView};
use crate::model::{
    add_derived_columns, aggregate_used_columns, cross_join, ended, equate_all, equi_defined,
    eval_used_columns, flatten, flatten_aggregate, flatten_child, flatten_eval_scalar,
    flatten_filter, inner_refs, outer_refs, Equated,
};
use crate::names::is_named;
use crate::plan::{
    columns_of_items, columns_used_by_items, item_views, Aggregate, AggregateMode, EvalScalar,
    Filter, Join, JoinType, RelOperator, ScalarItem, Scan,
};
use crate::rewriter::{plan_outcome, plan_result, FlattenInfo, SubqueryRewriter};
use crate::s_expr::SExpr;
use crate::scalar::{
    copy_scalars, lemma_scalar_views, lemma_scalar_views_push, scalar_views, ScalarExpr, ScalarView,
};
use crate::types::{copy_values, Span, Visibility};

verus! {

/// What stops at the first predicates stops at all of them.
proof fn lemma_equate_all_prefix(
    derived: Seq<(usize, usize)>,
    correlated: Seq<usize>,
    predicates: Seq<ScalarView>,
    n: int,
)
    requires
        0 <= n <= predicates.len(),
        !(equate_all(derived, correlated, predicates.take(n)) is All),
    ensures
        equate_all(derived, correlated, predicates) == equate_all(
            derived,
            correlated,
            predicates.take(n),
        ),
    decreases predicates.len() - n,
{
    if n < predicates.len() {
        assert(predicates.take(n + 1).drop_last() =~= predicates.take(n));
        lemma_equate_all_prefix(derived, correlated, predicates, n + 1);
    } else {
        assert(predicates.take(n) =~= predicates);
    }
}

/// Columns of which the first cannot be derived cannot all be derived.
proof fn lemma_add_derived_columns_prefix(
    columns: Seq<ColumnEntryView>,
    derived: Seq<(usize, usize)>,
    correlated: Seq<usize>,
    n: int,
)
    requires
        0 <= n <= correlated.len(),
        add_derived_columns(columns, derived, correlated.take(n)) is None,
    ensures
        add_derived_columns(columns, derived, correlated) is None,
    decreases correlated.len() - n,
{
    if n < correlated.len() {
        assert(correlated.take(n + 1).drop_last() =~= correlated.take(n));
        lemma_add_derived_columns_prefix(columns, derived, correlated, n + 1);
    } else {
        assert(correlated.take(n) =~= correlated);
    }
}

fn eval_columns(items: &Vec<ScalarItem>) -> (r: ColumnSet)
    ensures
        r@ == eval_used_columns(item_views(items@)),
{
    let mut r = columns_of_items(items);
    r.extend(&columns_used_by_items(items));
    r
}

fn aggregate_columns(aggregate: &Aggregate) -> (r: ColumnSet)
    ensures
        r@ == aggregate_used_columns(aggregate@),
{
    let mut r = eval_columns(&aggregate.group_items);
    r.extend(&eval_columns(&aggregate.aggregate_functions));
    r
}

fn copy_grouping_sets(sets: &Vec<Vec<usize>>) -> (r: Vec<Vec<usize>>)
    ensures
        r@.map_values(|set: Vec<usize>| set@) == sets@.map_values(|set: Vec<usize>| set@),
{
    let mut r: Vec<Vec<usize>> = Vec::with_capacity(sets.len());
    let mut i: usize = 0;
    while i < sets.len()
        invariant
            i <= sets@.len(),
            r@.len() == i,
            forall|k: int| 0 <= k < i ==> (#[trigger] r@[k])@ == sets@[k]@,
        decreases sets.len() - i,
    {
        r.push(copy_values(&sets[i]));
        i += 1;
    }
    assert(r@.map_values(|set: Vec<usize>| set@) =~= sets@.map_values(|set: Vec<usize>| set@));
    r
}

impl SubqueryRewriter {
    /// Whether the query around a subquery has to be joined into the subquery's plan beneath a
    /// filter. If the correlated columns only occur in equations of two columns, such as
    /// `t1.a = t.a and t1.b = t.b`, it has not: the other sides are their derived columns.
    pub fn join_outer_inner_table(
        &mut self,
        filter: &Filter,
        correlated_columns: &ColumnSet,
    ) -> (r: Result<bool, Stop>)
        ensures
            final(self).metadata == old(self).metadata,
            equate_all(old(self).derived_columns@, correlated_columns.order(), filter@.predicates)
                == match r {
                Ok(true) => Equated::NotAll(final(self).derived_columns@),
                Ok(false) => Equated::All(final(self).derived_columns@),
                Err(_) => Equated::Undefined,
            },
            r matches Err(stop) ==> stop == Stop::Undefined,
    {
        let ghost views = filter@.predicates;
        let ghost correlated = correlated_columns.order();
        let ghost start = self.derived_columns@;
        let mut i: usize = 0;
        while i < filter.predicates.len()
            invariant
                i <= filter.predicates@.len(),
                views == scalar_views(filter.predicates@),
                views.len() == filter.predicates@.len(),
                correlated == correlated_columns.order(),
                start == old(self).derived_columns@,
                self.metadata == old(self).metadata,
                equate_all(start, correlated, views.take(i as int)) == Equated::All(
                    self.derived_columns@,
                ),
            decreases filter.predicates.len() - i,
        {
            let predicate = &filter.predicates[i];
            proof {
                lemma_scalar_views(filter.predicates@);
                assert(views.take(i + 1).drop_last() =~= views.take(i as int));
                assert(views.take(i + 1).last() == predicate@);
                if !(equate_all(start, correlated, views.take(i + 1)) is All) {
                    lemma_equate_all_prefix(start, correlated, views, i + 1);
                }
            }
            if predicate.used_columns().intersects(correlated_columns) {
                let mut equates: bool = false;
                if let ScalarExpr::FunctionCall(func) = predicate {
                    if is_named(&func.func_name, "eq") {
                        proof {
                            lemma_scalar_views(func.arguments@);
                        }
                        if func.arguments.len() < 2 {
                            return Err(Stop::Undefined);
                        }
                        if let (
                            ScalarExpr::BoundColumnRef(left),
                            ScalarExpr::BoundColumnRef(right),
                        ) = (&func.arguments[0], &func.arguments[1]) {
                            let left_index: usize = left.column.index;
                            let right_index: usize = right.column.index;
                            let left_correlated: bool = correlated_columns.contains(left_index);
                            let right_correlated: bool = correlated_columns.contains(right_index);
                            if left_correlated && !right_correlated {
                                self.derived_columns.insert(left_index, right_index);
                            }
                            if !left_correlated && right_correlated {
                                self.derived_columns.insert(right_index, left_index);
                            }
                            equates = true;
                        }
                    }
                }
                if !equates {
                    return Ok(true);
                }
            }
            i += 1;
        }
        assert(views.take(i as int) =~= views);
        Ok(false)
    }

    /// Joins a plan with the table of the correlated columns, so that each has a derived column.
    fn cross_join_outer(&mut self, plan: &SExpr, correlated_columns: &ColumnSet) -> (r: Result<
        SExpr,
        Stop,
    >)
        ensures
            match (
                table_of(old(self).metadata@, correlated_columns.order()),
                add_derived_columns(
                    old(self).metadata@,
                    old(self).derived_columns@,
                    correlated_columns.order(),
                ),
            ) {
                (Some(table_index), Some((columns, derived))) => {
                    &&& r matches Ok(join)
                    &&& join@ == cross_join(table_index, values_of(derived).to_set(), plan@)
                    &&& final(self).metadata@ == columns
                    &&& final(self).derived_columns@ == derived
                },
                _ => r == Err::<SExpr, Stop>(Stop::Undefined),
            },
    {
        let ghost correlated = correlated_columns.order();
        let ghost columns = self.metadata@;
        let ghost derived = self.derived_columns@;
        let table_index: usize = match self.metadata.table_index_by_column_indexes(
            correlated_columns,
        ) {
            Some(table_index) => table_index,
            None => {
                return Err(Stop::Undefined);
            },
        };
        let mut i: usize = 0;
        assert(correlated.take(0) =~= Seq::<usize>::empty());
        while i < correlated_columns.len()
            invariant
                i <= correlated.len(),
                correlated == correlated_columns.order(),
                columns == old(self).metadata@,
                derived == old(self).derived_columns@,
                add_derived_columns(columns, derived, correlated.take(i as int)) == Some(
                    (self.metadata@, self.derived_columns@),
                ),
            decreases correlated.len() - i,
        {
            assert(correlated.take(i + 1).drop_last() =~= correlated.take(i as int));
            let correlated_column: usize = correlated_columns.get(i);
            if correlated_column >= self.metadata.len() {
                proof {
                    lemma_add_derived_columns_prefix(columns, derived, correlated, i + 1);
                }
                return Err(Stop::Undefined);
            }
            let column_entry = self.metadata.column(correlated_column);
            let name: String = column_entry.name();
            let data_type = column_entry.data_type();
            let index: usize = self.metadata.add_derived_column(name, data_type);
            self.derived_columns.insert(correlated_column, index);
            i += 1;
        }
        assert(correlated.take(i as int) =~= correlated);
        let logical_get = SExpr::create_leaf(
            Arc::new(
                RelOperator::Scan(
                    Scan { table_index, columns: self.derived_columns.values(), limit: None },
                ),
            ),
        );
        let join = Join {
            left_conditions: Vec::new(),
            right_conditions: Vec::new(),
            non_equi_conditions: Vec::new(),
            join_type: JoinType::Cross,
            marker_index: None,
            from_correlated_subquery: false,
            contain_runtime_filter: false,
        };
        proof {
            assert(join@.left_conditions =~= Seq::<ScalarView>::empty());
            assert(join@.right_conditions =~= Seq::<ScalarView>::empty());
            assert(join@.non_equi_conditions =~= Seq::<ScalarView>::empty());
        }
        Ok(
            SExpr::create_binary(
                Arc::new(RelOperator::Join(join)),
                Arc::new(logical_get),
                Arc::new(plan.share()),
            ),
        )
    }

    fn flatten_over_eval_scalar(
        &self,
        eval_scalar: &EvalScalar,
        flatten_plan: SExpr,
        correlated_columns: &ColumnSet,
    ) -> (r: Result<SExpr, Stop>)
        ensures
            flatten_eval_scalar(
                self.metadata@,
                self.derived_columns@,
                correlated_columns.order(),
                item_views(eval_scalar.items@),
                flatten_plan@,
            ) == plan_outcome(r),
    {
        let mut items = self.flatten_items(&eval_scalar.items, correlated_columns)?;
        if !self.knows_derived_columns() {
            return Err(Stop::Undefined);
        }
        self.push_derived_items(&mut items);
        Ok(
            SExpr::create_unary(
                Arc::new(RelOperator::EvalScalar(EvalScalar { items })),
                Arc::new(flatten_plan),
            ),
        )
    }

    fn flatten_over_filter(
        &self,
        filter: &Filter,
        flatten_plan: SExpr,
        correlated_columns: &ColumnSet,
    ) -> (r: Result<SExpr, Stop>)
        ensures
            flatten_filter(
                self.metadata@,
                self.derived_columns@,
                correlated_columns.order(),
                filter@,
                flatten_plan@,
            ) == plan_outcome(r),
    {
        let predicates = self.flatten_scalars(&filter.predicates, correlated_columns)?;
        Ok(
            SExpr::create_unary(
                Arc::new(RelOperator::Filter(Filter { predicates, is_having: filter.is_having })),
                Arc::new(flatten_plan),
            ),
        )
    }

    fn flatten_over_aggregate(
        &self,
        aggregate: &Aggregate,
        flatten_plan: SExpr,
        correlated_columns: &ColumnSet,
        flatten_info: &mut FlattenInfo,
    ) -> (r: Result<SExpr, Stop>)
        ensures
            flatten_aggregate(
                self.state(*old(flatten_info)),
                correlated_columns.order(),
                aggregate@,
                flatten_plan@,
            ) == ended(self.state(*final(flatten_info)), plan_result(r)),
    {
        let mut group_items = self.flatten_items(&aggregate.group_items, correlated_columns)?;
        if !self.knows_derived_columns() {
            return Err(Stop::Undefined);
        }
        self.push_derived_group_items(&mut group_items);
        let agg_items = self.flatten_aggregates(
            &aggregate.aggregate_functions,
            correlated_columns,
            flatten_info,
        )?;
        Ok(
            SExpr::create_unary(
                Arc::new(
                    RelOperator::Aggregate(
                        Aggregate {
                            mode: AggregateMode::Initial,
                            group_items,
                            aggregate_functions: agg_items,
                            from_distinct: aggregate.from_distinct,
                            limit: aggregate.limit,
                            grouping_id_index: aggregate.grouping_id_index,
                            grouping_sets: copy_grouping_sets(&aggregate.grouping_sets),
                        },
                    ),
                ),
                Arc::new(flatten_plan),
            ),
        )
    }

    fn flatten_input(
        &mut self,
        plan: &SExpr,
        position: usize,
        correlated_columns: &ColumnSet,
        flatten_info: &mut FlattenInfo,
        need_cross_join: bool,
    ) -> (r: Result<SExpr, Stop>)
        ensures
            flatten_child(
                old(self).state(*old(flatten_info)),
                correlated_columns.order(),
                plan@,
                position,
                need_cross_join,
            ) == ended(final(self).state(*final(flatten_info)), plan_result(r)),
        decreases plan@, 0nat,
    {
        match plan.child(position) {
            Ok(child) => {
                assert(decreases_to!(plan@ => plan@.children[position as int]));
                self.flatten(child, correlated_columns, flatten_info, need_cross_join)
            },
            Err(e) => Err(Stop::Failed(e)),
        }
    }

    /// Makes the plan of a subquery refer to derived columns in place of the correlated ones.
    #[verifier::rlimit(40)]
    pub fn flatten(
        &mut self,
        plan: &SExpr,
        correlated_columns: &ColumnSet,
        flatten_info: &mut FlattenInfo,
        need_cross_join: bool,
    ) -> (r: Result<SExpr, Stop>)
        ensures
            flatten(
                old(self).state(*old(flatten_info)),
                correlated_columns.order(),
                plan@,
                need_cross_join,
            ) == ended(final(self).state(*final(flatten_info)), plan_result(r)),
        decreases plan@, 2nat,
    {
        let prop = match plan.derive_relational_prop() {
            Ok(prop) => prop,
            Err(e) => {
                return Err(Stop::Failed(e));
            },
        };
        if prop.outer_columns.is_empty() {
            if !need_cross_join {
                return Ok(plan.share());
            }
            return self.cross_join_outer(plan, correlated_columns);
        }
        match &*plan.plan {
            RelOperator::EvalScalar(eval_scalar) => {
                let need: bool = need_cross_join || eval_columns(&eval_scalar.items).intersects(
                    correlated_columns,
                );
                let flatten_plan = self.flatten_input(
                    plan,
                    0,
                    correlated_columns,
                    flatten_info,
                    need,
                )?;
                self.flatten_over_eval_scalar(eval_scalar, flatten_plan, correlated_columns)
            },
            RelOperator::Filter(filter) => {
                let mut need: bool = need_cross_join;
                if !need {
                    need = self.join_outer_inner_table(filter, correlated_columns)?;
                    if need {
                        self.derived_columns.clear();
                    }
                }
                let flatten_plan = self.flatten_input(
                    plan,
                    0,
                    correlated_columns,
                    flatten_info,
                    need,
                )?;
                self.flatten_over_filter(filter, flatten_plan, correlated_columns)
            },
            RelOperator::Join(join) => {
                let need: bool = need_cross_join || join.used_columns().intersects(
                    correlated_columns,
                );
                let left_flatten_plan = self.flatten_input(
                    plan,
                    0,
                    correlated_columns,
                    flatten_info,
                    need,
                )?;
                let right_flatten_plan = self.flatten_input(
                    plan,
                    1,
                    correlated_columns,
                    flatten_info,
                    need,
                )?;
                Ok(
                    SExpr::create_binary(
                        Arc::new(
                            RelOperator::Join(
                                Join {
                                    left_conditions: copy_scalars(&join.left_conditions),
                                    right_conditions: copy_scalars(&join.right_conditions),
                                    non_equi_conditions: copy_scalars(&join.non_equi_conditions),
                                    join_type: join.join_type,
                                    marker_index: join.marker_index,
                                    from_correlated_subquery: false,
                                    contain_runtime_filter: false,
                                },
                            ),
                        ),
                        Arc::new(left_flatten_plan),
                        Arc::new(right_flatten_plan),
                    ),
                )
            },
            RelOperator::Aggregate(aggregate) => {
                let need: bool = need_cross_join || aggregate_columns(aggregate).intersects(
                    correlated_columns,
                );
                let flatten_plan = self.flatten_input(
                    plan,
                    0,
                    correlated_columns,
                    flatten_info,
                    need,
                )?;
                self.flatten_over_aggregate(
                    aggregate,
                    flatten_plan,
                    correlated_columns,
                    flatten_info,
                )
            },
            RelOperator::Sort(_) | RelOperator::Limit(_) => {
                let flatten_plan = self.flatten_input(
                    plan,
                    0,
                    correlated_columns,
                    flatten_info,
                    need_cross_join,
                )?;
                Ok(SExpr::create_unary(plan.plan.clone(), Arc::new(flatten_plan)))
            },
            RelOperator::UnionAll(op) => {
                let need: bool = need_cross_join || op.used_columns().intersects(
                    correlated_columns,
                );
                let left_flatten_plan = self.flatten_input(
                    plan,
                    0,
                    correlated_columns,
                    flatten_info,
                    need,
                )?;
                let right_flatten_plan = self.flatten_input(
                    plan,
                    1,
                    correlated_columns,
                    flatten_info,
                    need,
                )?;
                Ok(
                    SExpr::create_binary(
                        plan.plan.clone(),
                        Arc::new(left_flatten_plan),
                        Arc::new(right_flatten_plan),
                    ),
                )
            },
            RelOperator::Scan(_) | RelOperator::Opaque(_) => Err(Stop::Failed(
                ErrorCode::InvalidPlan,
            )),
        }
    }

    /// Adds a reference to each correlated column on one side and one to its derived column on
    /// the other, exactly once for each.
    pub fn add_equi_conditions(
        &self,
        span: Span,
        correlated_columns: &ColumnSet,
        left_conditions: &mut Vec<ScalarExpr>,
        right_conditions: &mut Vec<ScalarExpr>,
    ) -> (r: Result<(), Stop>)
        ensures
            correlated_columns.order().no_duplicates(),
            if equi_defined(self.metadata@, self.derived_columns@, correlated_columns.order()) {
                &&& r is Ok
                &&& scalar_views(final(left_conditions)@) == scalar_views(old(left_conditions)@)
                    + inner_refs(
                    self.metadata@,
                    self.derived_columns@,
                    span,
                    correlated_columns.order(),
                )
                &&& scalar_views(final(right_conditions)@) == scalar_views(old(right_conditions)@)
                    + outer_refs(self.metadata@, span, correlated_columns.order())
            } else {
                r == Err::<(), Stop>(Stop::Undefined)
            },
    {
        proof {
            use_type_invariant(correlated_columns);
        }
        let ghost correlated = correlated_columns.order();
        let ghost inner = inner_refs(self.metadata@, self.derived_columns@, span, correlated);
        let ghost outer = outer_refs(self.metadata@, span, correlated);
        let ghost left_start = scalar_views(left_conditions@);
        let ghost right_start = scalar_views(right_conditions@);
        let mut i: usize = 0;
        proof {
            assert(left_start + inner.take(0) =~= left_start);
            assert(right_start + outer.take(0) =~= right_start);
        }
        while i < correlated_columns.len()
            invariant
                i <= correlated.len(),
                correlated == correlated_columns.order(),
                correlated.no_duplicates(),
                inner == inner_refs(self.metadata@, self.derived_columns@, span, correlated),
                outer == outer_refs(self.metadata@, span, correlated),
                equi_defined(self.metadata@, self.derived_columns@, correlated.take(i as int)),
                scalar_views(left_conditions@) == left_start + inner.take(i as int),
                scalar_views(right_conditions@) == right_start + outer.take(i as int),
            decreases correlated.len() - i,
        {
            let correlated_column: usize = correlated_columns.get(i);
            if correlated_column >= self.metadata.len() {
                assert(correlated[i as int] >= self.metadata@.len());
                return Err(Stop::Undefined);
            }
            let derive_column: usize = match self.derived_columns.get(correlated_column) {
                Some(derive_column) => derive_column,
                None => {
                    assert(lookup(self.derived_columns@, correlated[i as int]) is None);
                    return Err(Stop::Undefined);
                },
            };
            if derive_column >= self.metadata.len() {
                assert(lookup(self.derived_columns@, correlated[i as int])->0
                    >= self.metadata@.len());
                return Err(Stop::Undefined);
            }
            let right_column = self.refer_to(span, correlated_column, Visibility::Visible);
            let left_column = self.refer_to(span, derive_column, Visibility::Visible);
            let ghost left_before = left_conditions@;
            let ghost right_before = right_conditions@;
            left_conditions.push(left_column);
            right_conditions.push(right_column);
            proof {
                assert forall|k: int| 0 <= k < i + 1 implies {
                    let c = #[trigger] correlated.take(i + 1)[k];
                    &&& c < self.metadata@.len()
                    &&& lookup(self.derived_columns@, c) is Some
                    &&& lookup(self.derived_columns@, c)->0 < self.metadata@.len()
                } by {
                    if k < i {
                        assert(correlated.take(i as int)[k] == correlated[k]);
                    }
                }
                lemma_scalar_views_push(left_before, left_column);
                lemma_scalar_views_push(right_before, right_column);
                assert(inner.take(i + 1) =~= inner.take(i as int).push(inner[i as int]));
                assert(outer.take(i + 1) =~= outer.take(i as int).push(outer[i as int]));
                assert(scalar_views(left_conditions@) =~= left_start + inner.take(i + 1));
                assert(scalar_views(right_conditions@) =~= right_start + outer.take(i + 1));
            }
            i += 1;
        }
        proof {
            assert(inner.take(i as int) =~= inner);
            assert(outer.take(i as int) =~= outer);
            assert(correlated.take(i as int) =~= correlated);
        }
        Ok(())
    }
}

} // verus!
