//! The state of a rewriting, and the rewriting of scalars.

use vstd::prelude::*;

use crate::column_map::{values_of, ColumnMap};
use crate::column_set::ColumnSet;
use crate::error::{ErrorCode, Stop};
use crate::metadata::{ColumnEntryView, Metadata};
use crate::model::{
    all_known, binding, column_ref, derived_group_items, derived_items, ended, flatten_aggregates,
    flatten_items, flatten_scalar, flatten_scalars, with_scalars, FlattenState, Outcome, Run,
};
use crate::names::{name_subquery_column, names_count};
use crate::plan::{item_scalars, item_views, ScalarItem, ScalarItemView};
use crate::s_expr::{SExpr, SExprView};
use crate::scalar::{
    lemma_scalar_views, lemma_scalar_views_push, scalar_views, AggregateFunction, BoundColumnRef,
    CastExpr, ColumnBinding, FunctionCall, ScalarExpr, ScalarView,
};
use crate::types::{copy_values, DataType, Span, Visibility};

verus! {

/// What flattening a subquery found out about it.
#[derive(Clone, Copy, PartialEq, Eq, Debug, Structural)]
pub struct FlattenInfo {
    /// Whether an aggregate function that counts was met.
    pub from_count_func: bool,
}

/// What became of a subquery.
#[derive(Clone, Copy, PartialEq, Eq, Debug, Structural)]
pub enum UnnestResult {
    /// A semi join or an anti join.
    SimpleJoin,
    /// A join that marks the rows of the query around the subquery in a column.
    MarkJoin { marker_index: usize },
    /// A join that gives at most one row of the subquery.
    SingleJoin,
}

/// Rewrites the subqueries of a query into joins.
#[derive(Debug)]
pub struct SubqueryRewriter {
    /// The columns of the query.
    pub metadata: Metadata,
    /// The derived column of each correlated column.
    pub derived_columns: ColumnMap,
}

/// The end of a step that returned a scalar.
pub open spec fn scalar_outcome(result: Result<ScalarExpr, Stop>) -> Outcome<ScalarView> {
    match result {
        Ok(scalar) => Outcome::Done(scalar@),
        Err(Stop::Failed(e)) => Outcome::Failed(e),
        Err(Stop::Undefined) => Outcome::Undefined,
    }
}

/// The end of a step that returned scalars.
pub open spec fn scalars_outcome(result: Result<Vec<ScalarExpr>, Stop>) -> Outcome<
    Seq<ScalarView>,
> {
    match result {
        Ok(scalars) => Outcome::Done(scalar_views(scalars@)),
        Err(Stop::Failed(e)) => Outcome::Failed(e),
        Err(Stop::Undefined) => Outcome::Undefined,
    }
}

/// The end of a step that returned items.
pub open spec fn items_outcome(result: Result<Vec<ScalarItem>, Stop>) -> Outcome<
    Seq<ScalarItemView>,
> {
    match result {
        Ok(items) => Outcome::Done(item_views(items@)),
        Err(Stop::Failed(e)) => Outcome::Failed(e),
        Err(Stop::Undefined) => Outcome::Undefined,
    }
}

/// The contents of a result.
pub open spec fn items_result(result: Result<Vec<ScalarItem>, Stop>) -> Result<
    Seq<ScalarItemView>,
    Stop,
> {
    match result {
        Ok(items) => Ok(item_views(items@)),
        Err(e) => Err(e),
    }
}

/// The end of a step that returned a plan.
pub open spec fn plan_outcome(result: Result<SExpr, Stop>) -> Outcome<SExprView> {
    match result {
        Ok(plan) => Outcome::Done(plan@),
        Err(Stop::Failed(e)) => Outcome::Failed(e),
        Err(Stop::Undefined) => Outcome::Undefined,
    }
}

/// The contents of a result.
pub open spec fn plan_result(result: Result<SExpr, Stop>) -> Result<SExprView, Stop> {
    match result {
        Ok(plan) => Ok(plan@),
        Err(e) => Err(e),
    }
}

/// What gives nothing for the first scalars gives nothing for all of them.
pub proof fn lemma_flatten_scalars_prefix(
    columns: Seq<ColumnEntryView>,
    derived: Seq<(usize, usize)>,
    correlated: Seq<usize>,
    scalars: Seq<ScalarView>,
    n: int,
)
    requires
        0 <= n <= scalars.len(),
        !(flatten_scalars(columns, derived, correlated, scalars.take(n)) is Done),
    ensures
        flatten_scalars(columns, derived, correlated, scalars) == flatten_scalars(
            columns,
            derived,
            correlated,
            scalars.take(n),
        ),
    decreases scalars.len() - n,
{
    if n < scalars.len() {
        assert(scalars.take(n + 1).drop_last() =~= scalars.take(n));
        lemma_flatten_scalars_prefix(columns, derived, correlated, scalars, n + 1);
    } else {
        assert(scalars.take(n) =~= scalars);
    }
}

/// What gives nothing for the first aggregate functions gives nothing for all of them.
proof fn lemma_flatten_aggregates_prefix(
    state: FlattenState,
    correlated: Seq<usize>,
    items: Seq<ScalarItemView>,
    n: int,
)
    requires
        0 <= n <= items.len(),
        !(flatten_aggregates(state, correlated, items.take(n)) is Done),
    ensures
        flatten_aggregates(state, correlated, items) == flatten_aggregates(
            state,
            correlated,
            items.take(n),
        ),
    decreases items.len() - n,
{
    if n < items.len() {
        assert(items.take(n + 1).drop_last() =~= items.take(n));
        lemma_flatten_aggregates_prefix(state, correlated, items, n + 1);
    } else {
        assert(items.take(n) =~= items);
    }
}

impl SubqueryRewriter {
    /// A rewriter over the columns of a query that has derived no column yet.
    pub fn new(metadata: Metadata) -> (r: Self)
        ensures
            r.metadata == metadata,
            r.derived_columns@ == Seq::<(usize, usize)>::empty(),
    {
        SubqueryRewriter { metadata, derived_columns: ColumnMap::new() }
    }

    /// The state of the rewriter and of what flattening found out.
    pub open spec fn state(&self, info: FlattenInfo) -> FlattenState {
        FlattenState {
            columns: self.metadata@,
            derived: self.derived_columns@,
            from_count_func: info.from_count_func,
        }
    }

    fn bind_column(&self, index: usize, name: String, visibility: Visibility) -> (r: ColumnBinding)
        requires
            index < self.metadata@.len(),
        ensures
            r@ == binding(self.metadata@, index, name@, visibility),
    {
        let data_type: DataType = self.metadata.column(index).data_type();
        ColumnBinding {
            database_name: None,
            table_name: None,
            table_index: None,
            column_name: name,
            index,
            data_type: Box::new(data_type),
            visibility,
        }
    }

    /// A reference to a column of the query under its own name.
    pub fn refer_to(&self, span: Span, index: usize, visibility: Visibility) -> (r: ScalarExpr)
        requires
            index < self.metadata@.len(),
        ensures
            r@ == column_ref(self.metadata@, span, index, visibility),
    {
        let name: String = self.metadata.column(index).name();
        ScalarExpr::BoundColumnRef(
            BoundColumnRef { span, column: self.bind_column(index, name, visibility) },
        )
    }

    /// Puts derived columns in place of the correlated columns of a scalar.
    pub fn flatten_scalar(&self, scalar: &ScalarExpr, correlated_columns: &ColumnSet) -> (r: Result<
        ScalarExpr,
        Stop,
    >)
        ensures
            flatten_scalar(
                self.metadata@,
                self.derived_columns@,
                correlated_columns.order(),
                scalar@,
            ) == scalar_outcome(r),
        decreases scalar,
    {
        match scalar {
            ScalarExpr::BoundColumnRef(bound_column) => {
                let column_binding = &bound_column.column;
                if correlated_columns.contains(column_binding.index) {
                    return match self.derived_columns.get(column_binding.index) {
                        Some(index) => if index < self.metadata.len() {
                            Ok(self.refer_to(bound_column.span, index, column_binding.visibility))
                        } else {
                            Err(Stop::Undefined)
                        },
                        None => Err(Stop::Undefined),
                    };
                }
                Ok(scalar.copy())
            },
            ScalarExpr::ConstantExpr(_) => Ok(scalar.copy()),
            ScalarExpr::AggregateFunction(agg) => {
                match self.flatten_scalars(&agg.args, correlated_columns) {
                    Ok(args) => {
                        let return_type: DataType = (&*agg.return_type).clone();
                        Ok(
                            ScalarExpr::AggregateFunction(
                                AggregateFunction {
                                    display_name: agg.display_name.clone(),
                                    func_name: agg.func_name.clone(),
                                    distinct: agg.distinct,
                                    params: copy_values(&agg.params),
                                    args,
                                    return_type: Box::new(return_type),
                                },
                            ),
                        )
                    },
                    Err(e) => Err(e),
                }
            },
            ScalarExpr::FunctionCall(func) => {
                match self.flatten_scalars(&func.arguments, correlated_columns) {
                    Ok(arguments) => Ok(
                        ScalarExpr::FunctionCall(
                            FunctionCall {
                                span: func.span,
                                func_name: func.func_name.clone(),
                                params: copy_values(&func.params),
                                arguments,
                            },
                        ),
                    ),
                    Err(e) => Err(e),
                }
            },
            ScalarExpr::CastExpr(cast_expr) => {
                match self.flatten_scalar(&cast_expr.argument, correlated_columns) {
                    Ok(argument) => {
                        let target_type: DataType = (&*cast_expr.target_type).clone();
                        Ok(
                            ScalarExpr::CastExpr(
                                CastExpr {
                                    span: cast_expr.span,
                                    is_try: cast_expr.is_try,
                                    argument: Box::new(argument),
                                    target_type: Box::new(target_type),
                                },
                            ),
                        )
                    },
                    Err(e) => Err(e),
                }
            },
            ScalarExpr::SubqueryExpr(_) => Err(Stop::Failed(ErrorCode::InvalidScalar)),
            ScalarExpr::Opaque(_) => Err(Stop::Failed(ErrorCode::InvalidScalar)),
        }
    }

    /// Puts derived columns in place of the correlated columns of each scalar.
    pub fn flatten_scalars(
        &self,
        scalars: &Vec<ScalarExpr>,
        correlated_columns: &ColumnSet,
    ) -> (r: Result<Vec<ScalarExpr>, Stop>)
        ensures
            flatten_scalars(
                self.metadata@,
                self.derived_columns@,
                correlated_columns.order(),
                scalar_views(scalars@),
            ) == scalars_outcome(r),
        decreases scalars,
    {
        let ghost views = scalar_views(scalars@);
        let ghost correlated = correlated_columns.order();
        let ghost columns = self.metadata@;
        let ghost derived = self.derived_columns@;
        let mut flat: Vec<ScalarExpr> = Vec::with_capacity(scalars.len());
        let mut i: usize = 0;
        proof {
            lemma_scalar_views(flat@);
            assert(scalar_views(flat@) =~= Seq::<ScalarView>::empty());
        }
        while i < scalars.len()
            invariant
                i <= scalars@.len(),
                views == scalar_views(scalars@),
                correlated == correlated_columns.order(),
                columns == self.metadata@,
                derived == self.derived_columns@,
                flatten_scalars(columns, derived, correlated, views.take(i as int))
                    == Outcome::Done(scalar_views(flat@)),
            decreases scalars.len() - i,
        {
            proof {
                lemma_scalar_views(scalars@);
                assert(views.take(i + 1).drop_last() =~= views.take(i as int));
                assert(views.take(i + 1).last() == scalars@[i as int]@);
                if !(flatten_scalars(columns, derived, correlated, views.take(i + 1)) is Done) {
                    lemma_flatten_scalars_prefix(columns, derived, correlated, views, i + 1);
                }
                assert(decreases_to!(scalars@ => scalars@[i as int]));
            }
            let ghost before = flat@;
            match self.flatten_scalar(&scalars[i], correlated_columns) {
                Ok(scalar) => {
                    flat.push(scalar);
                    proof {
                        lemma_scalar_views_push(before, scalar);
                    }
                },
                Err(e) => {
                    return Err(e);
                },
            }
            i += 1;
        }
        assert(views.take(i as int) =~= views);
        Ok(flat)
    }

    /// Puts derived columns in place of the correlated columns of each item.
    pub fn flatten_items(
        &self,
        items: &Vec<ScalarItem>,
        correlated_columns: &ColumnSet,
    ) -> (r: Result<Vec<ScalarItem>, Stop>)
        ensures
            flatten_items(
                self.metadata@,
                self.derived_columns@,
                correlated_columns.order(),
                item_views(items@),
            ) == items_outcome(r),
    {
        let ghost views = item_scalars(item_views(items@));
        let ghost correlated = correlated_columns.order();
        let ghost columns = self.metadata@;
        let ghost derived = self.derived_columns@;
        let mut flat: Vec<ScalarItem> = Vec::with_capacity(items.len());
        let mut i: usize = 0;
        assert(item_scalars(item_views(flat@)) =~= Seq::<ScalarView>::empty());
        while i < items.len()
            invariant
                i <= items@.len(),
                views == item_scalars(item_views(items@)),
                correlated == correlated_columns.order(),
                columns == self.metadata@,
                derived == self.derived_columns@,
                flat@.len() == i,
                forall|k: int| 0 <= k < i ==> (#[trigger] flat@[k]).index == items@[k].index,
                flatten_scalars(columns, derived, correlated, views.take(i as int))
                    == Outcome::Done(item_scalars(item_views(flat@))),
            decreases items.len() - i,
        {
            proof {
                assert(views.take(i + 1).drop_last() =~= views.take(i as int));
                assert(views.take(i + 1).last() == items@[i as int].scalar@);
                if !(flatten_scalars(columns, derived, correlated, views.take(i + 1)) is Done) {
                    lemma_flatten_scalars_prefix(columns, derived, correlated, views, i + 1);
                }
            }
            let ghost before = flat@;
            match self.flatten_scalar(&items[i].scalar, correlated_columns) {
                Ok(scalar) => {
                    flat.push(ScalarItem { scalar, index: items[i].index });
                    assert(item_scalars(item_views(flat@)) =~= item_scalars(
                        item_views(before),
                    ).push(scalar@));
                },
                Err(e) => {
                    return Err(e);
                },
            }
            i += 1;
        }
        proof {
            assert(views.take(i as int) =~= views);
            assert(item_views(flat@) =~= with_scalars(
                item_views(items@),
                item_scalars(item_views(flat@)),
            ));
        }
        Ok(flat)
    }

    /// As [`Self::flatten_items`], for aggregate functions: one that counts is noted.
    pub fn flatten_aggregates(
        &self,
        items: &Vec<ScalarItem>,
        correlated_columns: &ColumnSet,
        flatten_info: &mut FlattenInfo,
    ) -> (r: Result<Vec<ScalarItem>, Stop>)
        ensures
            flatten_aggregates(
                self.state(*old(flatten_info)),
                correlated_columns.order(),
                item_views(items@),
            ) == ended(self.state(*final(flatten_info)), items_result(r)),
    {
        let ghost views = item_views(items@);
        let ghost correlated = correlated_columns.order();
        let ghost start = self.state(*flatten_info);
        let mut flat: Vec<ScalarItem> = Vec::with_capacity(items.len());
        let mut i: usize = 0;
        assert(item_views(flat@) =~= Seq::<ScalarItemView>::empty());
        while i < items.len()
            invariant
                i <= items@.len(),
                views == item_views(items@),
                correlated == correlated_columns.order(),
                start == self.state(*old(flatten_info)),
                flatten_aggregates(start, correlated, views.take(i as int)) == Run::Done(
                    self.state(*flatten_info),
                    item_views(flat@),
                ),
            decreases items.len() - i,
        {
            proof {
                assert(views.take(i + 1).drop_last() =~= views.take(i as int));
                assert(views.take(i + 1).last() == items@[i as int]@);
                if !(flatten_aggregates(start, correlated, views.take(i + 1)) is Done) {
                    lemma_flatten_aggregates_prefix(start, correlated, views, i + 1);
                }
            }
            let ghost before = flat@;
            match self.flatten_scalar(&items[i].scalar, correlated_columns) {
                Ok(scalar) => {
                    if let ScalarExpr::AggregateFunction(agg) = &scalar {
                        if names_count(&agg.func_name) {
                            flatten_info.from_count_func = true;
                        }
                    }
                    flat.push(ScalarItem { scalar, index: items[i].index });
                    assert(item_views(flat@) =~= item_views(before).push(
                        ScalarItemView { scalar: scalar@, index: items@[i as int].index },
                    ));
                },
                Err(e) => {
                    return Err(e);
                },
            }
            i += 1;
        }
        assert(views.take(i as int) =~= views);
        Ok(flat)
    }

    /// Whether the query has all of the derived columns.
    pub fn knows_derived_columns(&self) -> (r: bool)
        ensures
            r == all_known(self.metadata@, values_of(self.derived_columns@)),
    {
        let ghost all = values_of(self.derived_columns@);
        let mut i: usize = 0;
        while i < self.derived_columns.len()
            invariant
                i <= self.derived_columns@.len(),
                all == values_of(self.derived_columns@),
                forall|k: int| 0 <= k < i ==> #[trigger] all[k] < self.metadata@.len(),
            decreases self.derived_columns@.len() - i,
        {
            if self.derived_columns.value_at(i) >= self.metadata.len() {
                assert(all[i as int] >= self.metadata@.len());
                return false;
            }
            i += 1;
        }
        true
    }

    /// Adds items that pass the derived columns on.
    pub fn push_derived_items(&self, items: &mut Vec<ScalarItem>)
        requires
            all_known(self.metadata@, values_of(self.derived_columns@)),
        ensures
            item_views(final(items)@) == item_views(old(items)@) + derived_items(
                self.metadata@,
                self.derived_columns@,
            ),
    {
        let ghost all = derived_items(self.metadata@, self.derived_columns@);
        let ghost start = item_views(items@);
        let mut i: usize = 0;
        assert(start + all.take(0) =~= start);
        while i < self.derived_columns.len()
            invariant
                i <= self.derived_columns@.len(),
                all == derived_items(self.metadata@, self.derived_columns@),
                all_known(self.metadata@, values_of(self.derived_columns@)),
                item_views(items@) == start + all.take(i as int),
            decreases self.derived_columns@.len() - i,
        {
            let index: usize = self.derived_columns.value_at(i);
            let ghost before = items@;
            items.push(
                ScalarItem { scalar: self.refer_to(None, index, Visibility::Visible), index },
            );
            proof {
                assert(all.take(i + 1) =~= all.take(i as int).push(all[i as int]));
                assert(item_views(items@) =~= item_views(before).push(all[i as int]));
                assert(item_views(items@) =~= start + all.take(i + 1));
            }
            i += 1;
        }
        assert(all.take(i as int) =~= all);
    }

    /// Adds items that group by the derived columns.
    pub fn push_derived_group_items(&self, items: &mut Vec<ScalarItem>)
        requires
            all_known(self.metadata@, values_of(self.derived_columns@)),
        ensures
            item_views(final(items)@) == item_views(old(items)@) + derived_group_items(
                self.metadata@,
                self.derived_columns@,
            ),
    {
        let ghost all = derived_group_items(self.metadata@, self.derived_columns@);
        let ghost start = item_views(items@);
        let mut i: usize = 0;
        assert(start + all.take(0) =~= start);
        while i < self.derived_columns.len()
            invariant
                i <= self.derived_columns@.len(),
                all == derived_group_items(self.metadata@, self.derived_columns@),
                all_known(self.metadata@, values_of(self.derived_columns@)),
                item_views(items@) == start + all.take(i as int),
            decreases self.derived_columns@.len() - i,
        {
            let index: usize = self.derived_columns.value_at(i);
            let column = self.bind_column(index, name_subquery_column(index), Visibility::Visible);
            let ghost before = items@;
            items.push(
                ScalarItem {
                    scalar: ScalarExpr::BoundColumnRef(BoundColumnRef { span: None, column }),
                    index,
                },
            );
            proof {
                assert(all.take(i + 1) =~= all.take(i as int).push(all[i as int]));
                assert(item_views(items@) =~= item_views(before).push(all[i as int]));
                assert(item_views(items@) =~= start + all.take(i + 1));
            }
            i += 1;
        }
        assert(all.take(i as int) =~= all);
    }
}

} // verus!
