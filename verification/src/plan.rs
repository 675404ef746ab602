//! The operators of a plan.

use vstd::prelude::*;

use crate::column_set::{lemma_take_to_set, ColumnSet};
use crate::scalar::{
    columns_used_by, scalar_views, used_by_all, used_columns, ScalarExpr, ScalarView,
};

verus! {

/// A scalar and the column that its value goes to.
#[derive(Debug)]
pub struct ScalarItem {
    pub scalar: ScalarExpr,
    pub index: usize,
}

/// Computes columns from its input and adds them to it.
#[derive(Debug)]
pub struct EvalScalar {
    pub items: Vec<ScalarItem>,
}

/// Keeps the rows of its input for which every predicate holds.
#[derive(Debug)]
pub struct Filter {
    pub predicates: Vec<ScalarExpr>,
    pub is_having: bool,
}

/// Which rows a join gives.
#[derive(Clone, Copy, PartialEq, Eq, Debug, Structural)]
pub enum JoinType {
    Inner,
    Left,
    Right,
    Full,
    LeftSemi,
    RightSemi,
    LeftAnti,
    RightAnti,
    Cross,
    LeftMark,
    RightMark,
    Single,
}

/// Joins its two inputs.
#[derive(Debug)]
pub struct Join {
    pub left_conditions: Vec<ScalarExpr>,
    pub right_conditions: Vec<ScalarExpr>,
    pub non_equi_conditions: Vec<ScalarExpr>,
    pub join_type: JoinType,
    pub marker_index: Option<usize>,
    pub from_correlated_subquery: bool,
    pub contain_runtime_filter: bool,
}

/// The stage of an aggregation.
#[derive(Clone, Copy, PartialEq, Eq, Debug, Structural)]
pub enum AggregateMode {
    Partial,
    Final,
    Initial,
}

/// Groups its input and aggregates each group.
#[derive(Debug)]
pub struct Aggregate {
    pub mode: AggregateMode,
    pub group_items: Vec<ScalarItem>,
    pub aggregate_functions: Vec<ScalarItem>,
    pub from_distinct: bool,
    pub limit: Option<usize>,
    pub grouping_id_index: usize,
    pub grouping_sets: Vec<Vec<usize>>,
}

/// A column to sort by.
#[derive(Clone, Copy, PartialEq, Eq, Debug, Structural)]
pub struct SortItem {
    pub index: usize,
    pub asc: bool,
    pub nulls_first: bool,
}

/// Sorts its input.
#[derive(Debug)]
pub struct Sort {
    pub items: Vec<SortItem>,
    pub limit: Option<usize>,
}

/// Keeps some rows of its input.
#[derive(Clone, Copy, PartialEq, Eq, Debug, Structural)]
pub struct Limit {
    pub limit: Option<usize>,
    pub offset: usize,
    pub before_exchange: bool,
}

/// Gives the rows of both inputs.
#[derive(Debug)]
pub struct UnionAll {
    /// The columns of the two inputs that go together.
    pub pairs: Vec<(usize, usize)>,
}

/// Reads columns of a table.
#[derive(Debug)]
pub struct Scan {
    pub table_index: usize,
    pub columns: ColumnSet,
    pub limit: Option<usize>,
}

/// An operator that the rewriting only carries, with the columns that were derived for it.
#[derive(Debug)]
pub struct OpaquePlan {
    /// Its number in the pool of such operators.
    pub id: usize,
    pub output_columns: ColumnSet,
    pub outer_columns: ColumnSet,
}

/// An operator.
#[derive(Debug)]
pub enum RelOperator {
    EvalScalar(EvalScalar),
    Filter(Filter),
    Join(Join),
    Aggregate(Aggregate),
    Sort(Sort),
    Limit(Limit),
    UnionAll(UnionAll),
    Scan(Scan),
    Opaque(OpaquePlan),
}

/// The kind of an operator.
#[derive(Clone, Copy, PartialEq, Eq, Debug, Structural)]
pub enum RelOp {
    EvalScalar,
    Filter,
    Join,
    Aggregate,
    Sort,
    Limit,
    UnionAll,
    Scan,
    Opaque,
}

/// A [`ScalarItem`] by its contents.
pub struct ScalarItemView {
    pub scalar: ScalarView,
    pub index: usize,
}

/// A [`Join`] by its contents.
pub struct JoinView {
    pub left_conditions: Seq<ScalarView>,
    pub right_conditions: Seq<ScalarView>,
    pub non_equi_conditions: Seq<ScalarView>,
    pub join_type: JoinType,
    pub marker_index: Option<usize>,
    pub from_correlated_subquery: bool,
    pub contain_runtime_filter: bool,
}

/// An [`Aggregate`] by its contents.
pub struct AggregateView {
    pub mode: AggregateMode,
    pub group_items: Seq<ScalarItemView>,
    pub aggregate_functions: Seq<ScalarItemView>,
    pub from_distinct: bool,
    pub limit: Option<usize>,
    pub grouping_id_index: usize,
    pub grouping_sets: Seq<Seq<usize>>,
}

/// A [`Filter`] by its contents.
pub struct FilterView {
    pub predicates: Seq<ScalarView>,
    pub is_having: bool,
}

/// A [`Scan`] by its contents.
pub struct ScanView {
    pub table_index: usize,
    pub columns: Set<usize>,
    pub limit: Option<usize>,
}

/// An [`OpaquePlan`] by its contents.
pub struct OpaquePlanView {
    pub id: usize,
    pub output_columns: Set<usize>,
    pub outer_columns: Set<usize>,
}

/// A [`RelOperator`] by its contents.
pub enum RelOperatorView {
    EvalScalar(Seq<ScalarItemView>),
    Filter(FilterView),
    Join(JoinView),
    Aggregate(AggregateView),
    Sort(Seq<SortItem>, Option<usize>),
    Limit(Limit),
    UnionAll(Seq<(usize, usize)>),
    Scan(ScanView),
    Opaque(OpaquePlanView),
}

impl View for ScalarItem {
    type V = ScalarItemView;

    open spec fn view(&self) -> ScalarItemView {
        ScalarItemView { scalar: self.scalar@, index: self.index }
    }
}

/// The contents of each item.
pub open spec fn item_views(items: Seq<ScalarItem>) -> Seq<ScalarItemView> {
    items.map_values(|item: ScalarItem| item@)
}

/// The scalars of the items.
pub open spec fn item_scalars(items: Seq<ScalarItemView>) -> Seq<ScalarView> {
    items.map_values(|item: ScalarItemView| item.scalar)
}

/// The columns that the items' values go to.
pub open spec fn item_columns(items: Seq<ScalarItemView>) -> Set<usize> {
    items.map_values(|item: ScalarItemView| item.index).to_set()
}

impl View for Filter {
    type V = FilterView;

    open spec fn view(&self) -> FilterView {
        FilterView { predicates: scalar_views(self.predicates@), is_having: self.is_having }
    }
}

impl View for Join {
    type V = JoinView;

    open spec fn view(&self) -> JoinView {
        JoinView {
            left_conditions: scalar_views(self.left_conditions@),
            right_conditions: scalar_views(self.right_conditions@),
            non_equi_conditions: scalar_views(self.non_equi_conditions@),
            join_type: self.join_type,
            marker_index: self.marker_index,
            from_correlated_subquery: self.from_correlated_subquery,
            contain_runtime_filter: self.contain_runtime_filter,
        }
    }
}

impl View for Aggregate {
    type V = AggregateView;

    open spec fn view(&self) -> AggregateView {
        AggregateView {
            mode: self.mode,
            group_items: item_views(self.group_items@),
            aggregate_functions: item_views(self.aggregate_functions@),
            from_distinct: self.from_distinct,
            limit: self.limit,
            grouping_id_index: self.grouping_id_index,
            grouping_sets: self.grouping_sets@.map_values(|set: Vec<usize>| set@),
        }
    }
}

impl View for Scan {
    type V = ScanView;

    open spec fn view(&self) -> ScanView {
        ScanView { table_index: self.table_index, columns: self.columns@, limit: self.limit }
    }
}

impl View for OpaquePlan {
    type V = OpaquePlanView;

    open spec fn view(&self) -> OpaquePlanView {
        OpaquePlanView {
            id: self.id,
            output_columns: self.output_columns@,
            outer_columns: self.outer_columns@,
        }
    }
}

impl View for RelOperator {
    type V = RelOperatorView;

    open spec fn view(&self) -> RelOperatorView {
        match *self {
            RelOperator::EvalScalar(eval) => RelOperatorView::EvalScalar(item_views(eval.items@)),
            RelOperator::Filter(filter) => RelOperatorView::Filter(filter@),
            RelOperator::Join(join) => RelOperatorView::Join(join@),
            RelOperator::Aggregate(aggregate) => RelOperatorView::Aggregate(aggregate@),
            RelOperator::Sort(sort) => RelOperatorView::Sort(sort.items@, sort.limit),
            RelOperator::Limit(limit) => RelOperatorView::Limit(limit),
            RelOperator::UnionAll(union) => RelOperatorView::UnionAll(union.pairs@),
            RelOperator::Scan(scan) => RelOperatorView::Scan(scan@),
            RelOperator::Opaque(opaque) => RelOperatorView::Opaque(opaque@),
        }
    }
}

/// The kind of an operator.
pub open spec fn rel_op(plan: RelOperatorView) -> RelOp {
    match plan {
        RelOperatorView::EvalScalar(_) => RelOp::EvalScalar,
        RelOperatorView::Filter(_) => RelOp::Filter,
        RelOperatorView::Join(_) => RelOp::Join,
        RelOperatorView::Aggregate(_) => RelOp::Aggregate,
        RelOperatorView::Sort(_, _) => RelOp::Sort,
        RelOperatorView::Limit(_) => RelOp::Limit,
        RelOperatorView::UnionAll(_) => RelOp::UnionAll,
        RelOperatorView::Scan(_) => RelOp::Scan,
        RelOperatorView::Opaque(_) => RelOp::Opaque,
    }
}

/// The columns that the conditions of a join refer to.
pub open spec fn join_used_columns(join: JoinView) -> Set<usize> {
    used_by_all(join.left_conditions).union(used_by_all(join.right_conditions)).union(
        used_by_all(join.non_equi_conditions),
    )
}

/// The columns that the pairs of a union name.
pub open spec fn union_used_columns(pairs: Seq<(usize, usize)>) -> Set<usize> {
    pairs.map_values(|pair: (usize, usize)| pair.0).to_set().union(
        pairs.map_values(|pair: (usize, usize)| pair.1).to_set(),
    )
}

/// The columns that the items refer to.
pub open spec fn items_used_columns(items: Seq<ScalarItemView>) -> Set<usize> {
    used_by_all(item_scalars(items))
}

impl RelOperator {
    /// The kind of the operator.
    pub fn rel_op(&self) -> (r: RelOp)
        ensures
            r == rel_op(self@),
    {
        match self {
            RelOperator::EvalScalar(_) => RelOp::EvalScalar,
            RelOperator::Filter(_) => RelOp::Filter,
            RelOperator::Join(_) => RelOp::Join,
            RelOperator::Aggregate(_) => RelOp::Aggregate,
            RelOperator::Sort(_) => RelOp::Sort,
            RelOperator::Limit(_) => RelOp::Limit,
            RelOperator::UnionAll(_) => RelOp::UnionAll,
            RelOperator::Scan(_) => RelOp::Scan,
            RelOperator::Opaque(_) => RelOp::Opaque,
        }
    }
}

/// The columns that the items refer to.
pub fn columns_used_by_items(items: &Vec<ScalarItem>) -> (r: ColumnSet)
    ensures
        r@ == items_used_columns(item_views(items@)),
{
    let ghost views = item_views(items@);
    let ghost scalars = item_scalars(views);
    let mut r = ColumnSet::new();
    let mut i: usize = 0;
    while i < items.len()
        invariant
            i <= items@.len(),
            views == item_views(items@),
            scalars == item_scalars(views),
            r@ == used_by_all(scalars.take(i as int)),
        decreases items.len() - i,
    {
        r.extend(&items[i].scalar.used_columns());
        assert(scalars.take(i + 1).drop_last() =~= scalars.take(i as int));
        i += 1;
    }
    assert(scalars.take(i as int) =~= scalars);
    r
}

/// The columns that the items' values go to.
pub fn columns_of_items(items: &Vec<ScalarItem>) -> (r: ColumnSet)
    ensures
        r@ == item_columns(item_views(items@)),
{
    let ghost all = item_views(items@).map_values(|item: ScalarItemView| item.index);
    let mut r = ColumnSet::new();
    let mut i: usize = 0;
    assert(all.take(0).to_set() =~= Set::<usize>::empty());
    while i < items.len()
        invariant
            i <= items@.len(),
            all == item_views(items@).map_values(|item: ScalarItemView| item.index),
            r@ == all.take(i as int).to_set(),
        decreases items.len() - i,
    {
        proof {
            lemma_take_to_set(all, i as int);
        }
        r.insert(items[i].index);
        i += 1;
    }
    assert(all.take(i as int) =~= all);
    r
}

impl Join {
    /// The columns that the conditions of the join refer to.
    pub fn used_columns(&self) -> (r: ColumnSet)
        ensures
            r@ == join_used_columns(self@),
    {
        let mut r = columns_used_by(&self.left_conditions);
        r.extend(&columns_used_by(&self.right_conditions));
        r.extend(&columns_used_by(&self.non_equi_conditions));
        r
    }
}

impl UnionAll {
    /// The columns that the pairs of the union name.
    pub fn used_columns(&self) -> (r: ColumnSet)
        ensures
            r@ == union_used_columns(self.pairs@),
    {
        let ghost left = self.pairs@.map_values(|pair: (usize, usize)| pair.0);
        let ghost right = self.pairs@.map_values(|pair: (usize, usize)| pair.1);
        let mut r = ColumnSet::new();
        let mut i: usize = 0;
        assert(left.take(0).to_set().union(right.take(0).to_set()) =~= Set::<usize>::empty());
        while i < self.pairs.len()
            invariant
                i <= self.pairs@.len(),
                left == self.pairs@.map_values(|pair: (usize, usize)| pair.0),
                right == self.pairs@.map_values(|pair: (usize, usize)| pair.1),
                r@ == left.take(i as int).to_set().union(right.take(i as int).to_set()),
            decreases self.pairs.len() - i,
        {
            proof {
                lemma_take_to_set(left, i as int);
                lemma_take_to_set(right, i as int);
            }
            let pair = self.pairs[i];
            r.insert(pair.0);
            r.insert(pair.1);
            assert(r@ =~= left.take(i + 1).to_set().union(right.take(i + 1).to_set()));
            i += 1;
        }
        assert(left.take(i as int) =~= left);
        assert(right.take(i as int) =~= right);
        r
    }
}

} // verus!
