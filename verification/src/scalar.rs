//! Scalar expressions.

use std::sync::Arc;
use vstd::prelude::*;

use crate::column_set::ColumnSet;
use crate::s_expr::SExpr;
use crate::types::{copy_values, DataType, Scalar, Span, Visibility};

verus! {

/// A column as a query refers to it.
#[derive(Debug)]
pub struct ColumnBinding {
    pub database_name: Option<String>,
    pub table_name: Option<String>,
    pub table_index: Option<usize>,
    pub column_name: String,
    pub index: usize,
    pub data_type: Box<DataType>,
    pub visibility: Visibility,
}

/// A reference to a column.
#[derive(Debug)]
pub struct BoundColumnRef {
    pub span: Span,
    pub column: ColumnBinding,
}

/// A literal in a query.
#[derive(Clone, Copy, Debug)]
pub struct ConstantExpr {
    pub span: Span,
    pub value: Scalar,
}

/// A call of an aggregate function.
#[derive(Debug)]
pub struct AggregateFunction {
    pub display_name: String,
    pub func_name: String,
    pub distinct: bool,
    pub params: Vec<Scalar>,
    pub args: Vec<ScalarExpr>,
    pub return_type: Box<DataType>,
}

/// A call of a scalar function.
#[derive(Debug)]
pub struct FunctionCall {
    pub span: Span,
    pub func_name: String,
    pub params: Vec<usize>,
    pub arguments: Vec<ScalarExpr>,
}

/// A conversion to another type.
#[derive(Debug)]
pub struct CastExpr {
    pub span: Span,
    pub is_try: bool,
    pub argument: Box<ScalarExpr>,
    pub target_type: Box<DataType>,
}

/// How the rows of a subquery become a value.
#[derive(Clone, Copy, PartialEq, Eq, Debug, Structural)]
pub enum SubqueryType {
    Any,
    All,
    Scalar,
    Exists,
    NotExists,
}

/// A comparison.
#[derive(Clone, Copy, PartialEq, Eq, Debug, Structural)]
pub enum ComparisonOp {
    Equal,
    NotEqual,
    GT,
    LT,
    GTE,
    LTE,
}

/// A subquery in a scalar.
#[derive(Debug)]
pub struct SubqueryExpr {
    pub span: Span,
    pub typ: SubqueryType,
    pub subquery: Arc<SExpr>,
    /// What an `ANY` subquery is compared with.
    pub child_expr: Option<Box<ScalarExpr>>,
    /// How an `ANY` subquery is compared.
    pub compare_op: Option<ComparisonOp>,
    /// The column that the subquery gives.
    pub output_column: ColumnBinding,
    /// The column that the subquery's value goes to, where the query already has one.
    pub projection_index: Option<usize>,
    /// The columns of the query around it that the subquery refers to.
    pub outer_columns: ColumnSet,
}

/// A scalar that the rewriting only carries, such as a window function.
#[derive(Debug)]
pub struct OpaqueScalar {
    /// Its number in the pool of such scalars.
    pub id: usize,
    pub used_columns: ColumnSet,
}

/// A scalar expression.
#[derive(Debug)]
pub enum ScalarExpr {
    BoundColumnRef(BoundColumnRef),
    ConstantExpr(ConstantExpr),
    AggregateFunction(AggregateFunction),
    FunctionCall(FunctionCall),
    CastExpr(CastExpr),
    SubqueryExpr(Arc<SubqueryExpr>),
    Opaque(OpaqueScalar),
}

/// A [`ColumnBinding`] by its contents.
pub struct ColumnBindingView {
    pub database_name: Option<Seq<char>>,
    pub table_name: Option<Seq<char>>,
    pub table_index: Option<usize>,
    pub column_name: Seq<char>,
    pub index: usize,
    pub data_type: DataType,
    pub visibility: Visibility,
}

/// A [`BoundColumnRef`] by its contents.
pub struct BoundColumnRefView {
    pub span: Span,
    pub column: ColumnBindingView,
}

/// An [`AggregateFunction`] by its contents.
pub struct AggregateFunctionView {
    pub display_name: Seq<char>,
    pub func_name: Seq<char>,
    pub distinct: bool,
    pub params: Seq<Scalar>,
    pub args: Seq<ScalarView>,
    pub return_type: DataType,
}

/// A [`FunctionCall`] by its contents.
pub struct FunctionCallView {
    pub span: Span,
    pub func_name: Seq<char>,
    pub params: Seq<usize>,
    pub arguments: Seq<ScalarView>,
}

/// A [`CastExpr`] by its contents.
pub struct CastExprView {
    pub span: Span,
    pub is_try: bool,
    pub argument: Box<ScalarView>,
    pub target_type: DataType,
}

/// An [`OpaqueScalar`] by its contents.
pub struct OpaqueScalarView {
    pub id: usize,
    pub used_columns: Set<usize>,
}

/// A [`ScalarExpr`] by its contents.
pub enum ScalarView {
    BoundColumnRef(BoundColumnRefView),
    ConstantExpr(ConstantExpr),
    AggregateFunction(AggregateFunctionView),
    FunctionCall(FunctionCallView),
    CastExpr(CastExprView),
    SubqueryExpr(Arc<SubqueryExpr>),
    Opaque(OpaqueScalarView),
}

/// The characters of a name that may be missing.
pub open spec fn name_view(name: Option<String>) -> Option<Seq<char>> {
    match name {
        Some(text) => Some(text@),
        None => None,
    }
}

impl View for ColumnBinding {
    type V = ColumnBindingView;

    open spec fn view(&self) -> ColumnBindingView {
        ColumnBindingView {
            database_name: name_view(self.database_name),
            table_name: name_view(self.table_name),
            table_index: self.table_index,
            column_name: self.column_name@,
            index: self.index,
            data_type: *self.data_type,
            visibility: self.visibility,
        }
    }
}

impl View for BoundColumnRef {
    type V = BoundColumnRefView;

    open spec fn view(&self) -> BoundColumnRefView {
        BoundColumnRefView { span: self.span, column: self.column@ }
    }
}

impl View for OpaqueScalar {
    type V = OpaqueScalarView;

    open spec fn view(&self) -> OpaqueScalarView {
        OpaqueScalarView { id: self.id, used_columns: self.used_columns@ }
    }
}

impl View for ScalarExpr {
    type V = ScalarView;

    open spec fn view(&self) -> ScalarView {
        scalar_view(*self)
    }
}

/// The contents of a scalar.
pub open spec fn scalar_view(scalar: ScalarExpr) -> ScalarView
    decreases scalar,
{
    match scalar {
        ScalarExpr::BoundColumnRef(column) => ScalarView::BoundColumnRef(column@),
        ScalarExpr::ConstantExpr(constant) => ScalarView::ConstantExpr(constant),
        ScalarExpr::AggregateFunction(agg) => ScalarView::AggregateFunction(
            AggregateFunctionView {
                display_name: agg.display_name@,
                func_name: agg.func_name@,
                distinct: agg.distinct,
                params: agg.params@,
                args: scalar_views(agg.args@),
                return_type: *agg.return_type,
            },
        ),
        ScalarExpr::FunctionCall(func) => ScalarView::FunctionCall(
            FunctionCallView {
                span: func.span,
                func_name: func.func_name@,
                params: func.params@,
                arguments: scalar_views(func.arguments@),
            },
        ),
        ScalarExpr::CastExpr(cast) => ScalarView::CastExpr(
            CastExprView {
                span: cast.span,
                is_try: cast.is_try,
                argument: Box::new(scalar_view(*cast.argument)),
                target_type: *cast.target_type,
            },
        ),
        ScalarExpr::SubqueryExpr(subquery) => ScalarView::SubqueryExpr(subquery),
        ScalarExpr::Opaque(opaque) => ScalarView::Opaque(opaque@),
    }
}

/// The contents of each scalar.
pub open spec fn scalar_views(scalars: Seq<ScalarExpr>) -> Seq<ScalarView>
    decreases scalars,
{
    Seq::new(
        scalars.len(),
        |i: int|
            if 0 <= i < scalars.len() {
                scalar_view(scalars[i])
            } else {
                arbitrary()
            },
    )
}

/// The columns that a scalar refers to. Of a subquery they are those of the query around it.
pub open spec fn used_columns(scalar: ScalarView) -> Set<usize>
    decreases scalar,
{
    match scalar {
        ScalarView::BoundColumnRef(column) => set![column.column.index],
        ScalarView::ConstantExpr(_) => Set::empty(),
        ScalarView::AggregateFunction(agg) => used_by_all(agg.args),
        ScalarView::FunctionCall(func) => used_by_all(func.arguments),
        ScalarView::CastExpr(cast) => used_columns(*cast.argument),
        ScalarView::SubqueryExpr(subquery) => subquery.outer_columns@,
        ScalarView::Opaque(opaque) => opaque.used_columns,
    }
}

/// The columns that one of the scalars refers to.
pub open spec fn used_by_all(scalars: Seq<ScalarView>) -> Set<usize>
    decreases scalars,
{
    if scalars.len() == 0 {
        Set::empty()
    } else {
        used_by_all(scalars.drop_last()).union(used_columns(scalars.last()))
    }
}

/// The contents of each scalar, one by one.
pub proof fn lemma_scalar_views(scalars: Seq<ScalarExpr>)
    ensures
        scalar_views(scalars).len() == scalars.len(),
        forall|i: int| 0 <= i < scalars.len() ==> #[trigger] scalar_views(scalars)[i] == scalars[i]@,
{
}

/// The contents of scalars with one more behind them.
pub proof fn lemma_scalar_views_push(scalars: Seq<ScalarExpr>, scalar: ScalarExpr)
    ensures
        scalar_views(scalars.push(scalar)) == scalar_views(scalars).push(scalar@),
{
    lemma_scalar_views(scalars);
    lemma_scalar_views(scalars.push(scalar));
    assert(scalar_views(scalars.push(scalar)) =~= scalar_views(scalars).push(scalar@));
}

fn copy_name(name: &Option<String>) -> (r: Option<String>)
    ensures
        name_view(r) == name_view(*name),
{
    match name {
        Some(text) => Some(text.clone()),
        None => None,
    }
}

impl ColumnBinding {
    /// A copy of the binding.
    pub fn copy(&self) -> (r: Self)
        ensures
            r@ == self@,
    {
        let data_type: DataType = (&*self.data_type).clone();
        ColumnBinding {
            database_name: copy_name(&self.database_name),
            table_name: copy_name(&self.table_name),
            table_index: self.table_index,
            column_name: self.column_name.clone(),
            index: self.index,
            data_type: Box::new(data_type),
            visibility: self.visibility,
        }
    }
}

impl ScalarExpr {
    /// A copy of the scalar.
    pub fn copy(&self) -> (r: Self)
        ensures
            r@ == self@,
        decreases self,
    {
        match self {
            ScalarExpr::BoundColumnRef(column) => ScalarExpr::BoundColumnRef(
                BoundColumnRef { span: column.span, column: column.column.copy() },
            ),
            ScalarExpr::ConstantExpr(constant) => ScalarExpr::ConstantExpr(*constant),
            ScalarExpr::AggregateFunction(agg) => {
                let return_type: DataType = (&*agg.return_type).clone();
                ScalarExpr::AggregateFunction(
                    AggregateFunction {
                        display_name: agg.display_name.clone(),
                        func_name: agg.func_name.clone(),
                        distinct: agg.distinct,
                        params: copy_values(&agg.params),
                        args: copy_scalars(&agg.args),
                        return_type: Box::new(return_type),
                    },
                )
            },
            ScalarExpr::FunctionCall(func) => ScalarExpr::FunctionCall(
                FunctionCall {
                    span: func.span,
                    func_name: func.func_name.clone(),
                    params: copy_values(&func.params),
                    arguments: copy_scalars(&func.arguments),
                },
            ),
            ScalarExpr::CastExpr(cast) => {
                let target_type: DataType = (&*cast.target_type).clone();
                ScalarExpr::CastExpr(
                    CastExpr {
                        span: cast.span,
                        is_try: cast.is_try,
                        argument: Box::new(cast.argument.copy()),
                        target_type: Box::new(target_type),
                    },
                )
            },
            ScalarExpr::SubqueryExpr(subquery) => ScalarExpr::SubqueryExpr(subquery.clone()),
            ScalarExpr::Opaque(opaque) => ScalarExpr::Opaque(
                OpaqueScalar { id: opaque.id, used_columns: opaque.used_columns.copy() },
            ),
        }
    }

    /// The columns that the scalar refers to.
    pub fn used_columns(&self) -> (r: ColumnSet)
        ensures
            r@ == used_columns(self@),
        decreases self,
    {
        match self {
            ScalarExpr::BoundColumnRef(column) => {
                let mut r = ColumnSet::new();
                r.insert(column.column.index);
                assert(r@ =~= used_columns(self@));
                r
            },
            ScalarExpr::ConstantExpr(_) => ColumnSet::new(),
            ScalarExpr::AggregateFunction(agg) => columns_used_by(&agg.args),
            ScalarExpr::FunctionCall(func) => columns_used_by(&func.arguments),
            ScalarExpr::CastExpr(cast) => cast.argument.used_columns(),
            ScalarExpr::SubqueryExpr(subquery) => subquery.outer_columns.copy(),
            ScalarExpr::Opaque(opaque) => opaque.used_columns.copy(),
        }
    }
}

/// A copy of each scalar.
pub fn copy_scalars(scalars: &Vec<ScalarExpr>) -> (r: Vec<ScalarExpr>)
    ensures
        scalar_views(r@) == scalar_views(scalars@),
    decreases scalars,
{
    let mut r: Vec<ScalarExpr> = Vec::with_capacity(scalars.len());
    let mut i: usize = 0;
    while i < scalars.len()
        invariant
            i <= scalars@.len(),
            r@.len() == i,
            forall|k: int| 0 <= k < i ==> (#[trigger] r@[k])@ == scalars@[k]@,
        decreases scalars.len() - i,
    {
        assert(decreases_to!(scalars@ => scalars@[i as int]));
        r.push(scalars[i].copy());
        i += 1;
    }
    assert(scalar_views(r@) =~= scalar_views(scalars@));
    r
}

/// The columns that one of the scalars refers to.
pub fn columns_used_by(scalars: &Vec<ScalarExpr>) -> (r: ColumnSet)
    ensures
        r@ == used_by_all(scalar_views(scalars@)),
    decreases scalars,
{
    let mut r = ColumnSet::new();
    let mut i: usize = 0;
    let ghost views = scalar_views(scalars@);
    while i < scalars.len()
        invariant
            i <= scalars@.len(),
            views == scalar_views(scalars@),
            r@ == used_by_all(views.take(i as int)),
        decreases scalars.len() - i,
    {
        assert(decreases_to!(scalars@ => scalars@[i as int]));
        r.extend(&scalars[i].used_columns());
        assert(views.take(i + 1).drop_last() =~= views.take(i as int));
        i += 1;
    }
    assert(views.take(i as int) =~= views);
    r
}

} // verus!
