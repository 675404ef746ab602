use std::sync::Arc;

use decorrelate::column_set::ColumnSet;
use decorrelate::decorrelate::decorrelate_subquery;
use decorrelate::error::{ErrorCode, Stop};
use decorrelate::metadata::{
    BaseTableColumn, ColumnEntry, DerivedColumn, Metadata, TableInternalColumn, VirtualColumn,
};
use decorrelate::plan::{
    Aggregate, AggregateMode, EvalScalar, Filter, Join, JoinType, Limit, OpaquePlan, RelOperator,
    ScalarItem, Scan, Sort, SortItem, UnionAll,
};
use decorrelate::rewriter::{FlattenInfo, SubqueryRewriter, UnnestResult};
use decorrelate::s_expr::SExpr;
use decorrelate::scalar::{
    AggregateFunction, BoundColumnRef, CastExpr, ColumnBinding, ComparisonOp, ConstantExpr,
    FunctionCall, OpaqueScalar, ScalarExpr, SubqueryExpr, SubqueryType,
};
use decorrelate::types::{DataType, Scalar, SourceRange, Visibility};

// The table `t` is number 0 and has the columns a = 0 and b = 1. The table `u` is number 1 and has
// the columns x = 2 and y = 3.

fn table_column(table_index: usize, column_index: usize, name: &str) -> ColumnEntry {
    ColumnEntry::BaseTableColumn(BaseTableColumn {
        table_index,
        column_index,
        column_name: name.to_string(),
        data_type: DataType::Other(column_index as u32),
    })
}

fn metadata() -> Metadata {
    Metadata {
        columns: vec![
            table_column(0, 0, "a"),
            table_column(0, 1, "b"),
            table_column(1, 2, "x"),
            table_column(1, 3, "y"),
        ],
    }
}

fn rewriter() -> SubqueryRewriter {
    SubqueryRewriter::new(metadata())
}

fn info() -> FlattenInfo {
    FlattenInfo { from_count_func: false }
}

fn bound(index: usize, name: &str) -> BoundColumnRef {
    BoundColumnRef {
        span: Some(SourceRange { start: 7, end: 8 }),
        column: ColumnBinding {
            database_name: Some("default".to_string()),
            table_name: None,
            table_index: Some(0),
            column_name: name.to_string(),
            index,
            data_type: Box::new(DataType::Other(index as u32)),
            visibility: Visibility::InVisible,
        },
    }
}

fn col(index: usize) -> ScalarExpr {
    ScalarExpr::BoundColumnRef(bound(index, "c"))
}

fn constant() -> ScalarExpr {
    ScalarExpr::ConstantExpr(ConstantExpr { span: None, value: Scalar::Number(5) })
}

fn call(name: &str, arguments: Vec<ScalarExpr>) -> ScalarExpr {
    ScalarExpr::FunctionCall(FunctionCall {
        span: None,
        func_name: name.to_string(),
        params: vec![1, 2],
        arguments,
    })
}

fn agg(name: &str, args: Vec<ScalarExpr>) -> ScalarExpr {
    ScalarExpr::AggregateFunction(AggregateFunction {
        display_name: format!("{}(..)", name),
        func_name: name.to_string(),
        distinct: true,
        params: vec![Scalar::Boolean(true)],
        args,
        return_type: Box::new(DataType::Other(77)),
    })
}

fn item(scalar: ScalarExpr, index: usize) -> ScalarItem {
    ScalarItem { scalar, index }
}

fn set(columns: Vec<usize>) -> ColumnSet {
    ColumnSet::from_columns(&columns)
}

fn scan(table_index: usize, columns: Vec<usize>) -> SExpr {
    SExpr::create_leaf(Arc::new(RelOperator::Scan(Scan {
        table_index,
        columns: set(columns),
        limit: None,
    })))
}

fn scan_t() -> SExpr {
    scan(0, vec![0, 1])
}

fn scan_u() -> SExpr {
    scan(1, vec![2, 3])
}

fn over(plan: RelOperator, child: SExpr) -> SExpr {
    SExpr::create_unary(Arc::new(plan), Arc::new(child))
}

fn filter(predicates: Vec<ScalarExpr>, child: SExpr) -> SExpr {
    over(RelOperator::Filter(Filter { predicates, is_having: true }), child)
}

fn eval(items: Vec<ScalarItem>, child: SExpr) -> SExpr {
    over(RelOperator::EvalScalar(EvalScalar { items }), child)
}

fn aggregate(groups: Vec<ScalarItem>, functions: Vec<ScalarItem>, child: SExpr) -> SExpr {
    over(
        RelOperator::Aggregate(Aggregate {
            mode: AggregateMode::Final,
            group_items: groups,
            aggregate_functions: functions,
            from_distinct: true,
            limit: Some(3),
            grouping_id_index: 11,
            grouping_sets: vec![vec![1, 2], vec![]],
        }),
        child,
    )
}

fn join(conditions: Vec<ScalarExpr>, left: SExpr, right: SExpr) -> SExpr {
    SExpr::create_binary(
        Arc::new(RelOperator::Join(Join {
            left_conditions: vec![],
            right_conditions: vec![],
            non_equi_conditions: conditions,
            join_type: JoinType::Inner,
            marker_index: Some(12),
            from_correlated_subquery: true,
            contain_runtime_filter: true,
        })),
        Arc::new(left),
        Arc::new(right),
    )
}

fn subquery(typ: SubqueryType, plan: SExpr, outer: Vec<usize>) -> SubqueryExpr {
    SubqueryExpr {
        span: Some(SourceRange { start: 1, end: 2 }),
        typ,
        subquery: Arc::new(plan),
        child_expr: None,
        compare_op: None,
        output_column: bound(3, "y").column,
        projection_index: None,
        outer_columns: set(outer),
    }
}

fn text<T: std::fmt::Debug>(value: &T) -> String {
    format!("{:?}", value)
}

fn as_column(scalar: &ScalarExpr) -> &BoundColumnRef {
    match scalar {
        ScalarExpr::BoundColumnRef(column) => column,
        _ => panic!("no column"),
    }
}

fn index_of(scalar: &ScalarExpr) -> usize {
    as_column(scalar).column.index
}

fn indexes(scalars: &Vec<ScalarExpr>) -> Vec<usize> {
    scalars.iter().map(|scalar| index_of(scalar)).collect()
}

fn arguments(scalar: &ScalarExpr) -> &Vec<ScalarExpr> {
    match scalar {
        ScalarExpr::FunctionCall(func) => &func.arguments,
        _ => panic!("no call"),
    }
}

fn as_join(plan: &SExpr) -> &Join {
    match &*plan.plan {
        RelOperator::Join(join) => join,
        _ => panic!("no join"),
    }
}

fn predicates(plan: &SExpr) -> &Vec<ScalarExpr> {
    match &*plan.plan {
        RelOperator::Filter(filter) => &filter.predicates,
        _ => panic!("no filter"),
    }
}

fn items(plan: &SExpr) -> &Vec<ScalarItem> {
    match &*plan.plan {
        RelOperator::EvalScalar(eval) => &eval.items,
        _ => panic!("no computed columns"),
    }
}

fn as_aggregate(plan: &SExpr) -> &Aggregate {
    match &*plan.plan {
        RelOperator::Aggregate(aggregate) => aggregate,
        _ => panic!("no aggregation"),
    }
}

fn as_scan(plan: &SExpr) -> &Scan {
    match &*plan.plan {
        RelOperator::Scan(scan) => scan,
        _ => panic!("no table"),
    }
}

fn outer_columns(plan: &SExpr) -> Vec<usize> {
    let outer = plan.derive_relational_prop().unwrap().outer_columns;
    let mut columns: Vec<usize> = (0..outer.len()).map(|i| outer.get(i)).collect();
    columns.sort();
    columns
}

fn output_columns(plan: &SExpr) -> Vec<usize> {
    let output = plan.derive_relational_prop().unwrap().output_columns;
    let mut columns: Vec<usize> = (0..output.len()).map(|i| output.get(i)).collect();
    columns.sort();
    columns
}

// select y from u where x = a
fn equal_plan() -> SExpr {
    eval(vec![item(col(3), 3)], filter(vec![call("eq", vec![col(2), col(0)])], scan_u()))
}

// select y from u where x < a
fn less_plan() -> SExpr {
    eval(vec![item(col(3), 3)], filter(vec![call("lt", vec![col(2), col(0)])], scan_u()))
}

#[test]
fn a_scalar_subquery_with_an_equation_becomes_a_single_join() {
    let mut rewriter = rewriter();
    let mut found = info();
    let expr = subquery(SubqueryType::Scalar, equal_plan(), vec![0]);
    let (plan, result) =
        rewriter.try_decorrelate_subquery(&scan_t(), &expr, &mut found, true).unwrap();
    assert_eq!(result, UnnestResult::SingleJoin);
    let single = as_join(&plan);
    assert_eq!(single.join_type, JoinType::Single);
    assert_eq!(single.marker_index, None);
    assert!(single.from_correlated_subquery);
    assert!(!single.contain_runtime_filter);
    assert!(single.non_equi_conditions.is_empty());
    assert_eq!(indexes(&single.left_conditions), vec![0]);
    assert_eq!(indexes(&single.right_conditions), vec![2]);
    let outer = as_column(&single.left_conditions[0]);
    assert_eq!(outer.span, expr.span);
    assert_eq!(outer.column.column_name, "a");
    assert_eq!(*outer.column.data_type, DataType::Other(0));
    assert_eq!(outer.column.visibility, Visibility::Visible);
    assert_eq!(outer.column.database_name, None);
    assert_eq!(as_column(&single.right_conditions[0]).column.column_name, "x");
    assert_eq!(text(&*plan.children[0]), text(&scan_t()));
    let flat = &*plan.children[1];
    assert_eq!(items(flat).iter().map(|i| i.index).collect::<Vec<_>>(), vec![3, 2]);
    assert_eq!(index_of(&items(flat)[1].scalar), 2);
    assert_eq!(indexes(arguments(&predicates(&flat.children[0])[0])), vec![2, 2]);
    assert_eq!(text(&*flat.children[0].children[0]), text(&scan_u()));
    assert_eq!(rewriter.metadata.len(), 4);
    assert_eq!(rewriter.derived_columns.get(0), Some(2));
    assert!(!found.from_count_func);
}

#[test]
fn the_sides_of_an_equation_may_be_exchanged() {
    let mut rewriter = rewriter();
    let plan = filter(vec![call("eq", vec![col(0), col(3)])], scan_u());
    rewriter.flatten(&plan, &set(vec![0]), &mut info(), false).unwrap();
    assert_eq!(rewriter.derived_columns.get(0), Some(3));
}

#[test]
fn an_inequality_needs_a_cross_join() {
    let mut rewriter = rewriter();
    let expr = subquery(SubqueryType::Scalar, less_plan(), vec![0]);
    let (plan, result) =
        rewriter.try_decorrelate_subquery(&scan_t(), &expr, &mut info(), true).unwrap();
    assert_eq!(result, UnnestResult::SingleJoin);
    assert_eq!(indexes(&as_join(&plan).left_conditions), vec![0]);
    assert_eq!(indexes(&as_join(&plan).right_conditions), vec![4]);
    let flat = &*plan.children[1];
    assert_eq!(items(flat).iter().map(|i| i.index).collect::<Vec<_>>(), vec![3, 4]);
    let lower = &flat.children[0];
    assert_eq!(indexes(arguments(&predicates(lower)[0])), vec![2, 4]);
    let cross = &lower.children[0];
    assert_eq!(as_join(cross).join_type, JoinType::Cross);
    assert!(!as_join(cross).from_correlated_subquery);
    assert_eq!(as_scan(&cross.children[0]).table_index, 0);
    assert_eq!(as_scan(&cross.children[0]).limit, None);
    assert_eq!(output_columns(&cross.children[0]), vec![4]);
    assert_eq!(text(&*cross.children[1]), text(&scan_u()));
    assert_eq!(rewriter.metadata.len(), 5);
    let added = rewriter.metadata.column(4);
    assert_eq!(added.name(), "a");
    assert_eq!(added.data_type(), DataType::Other(0));
    assert!(matches!(added, ColumnEntry::DerivedColumn(column) if column.column_index == 4));
}

#[test]
fn an_inequality_behind_an_equation_takes_the_derived_columns_back() {
    let mut rewriter = rewriter();
    let plan = filter(
        vec![
            call("eq", vec![col(2), col(0)]),
            call("gt", vec![col(3), col(1)]),
        ],
        scan_u(),
    );
    let flat = rewriter.flatten(&plan, &set(vec![1, 0]), &mut info(), false).unwrap();
    assert_eq!(rewriter.derived_columns.get(1), Some(4));
    assert_eq!(rewriter.derived_columns.get(0), Some(5));
    assert_eq!(indexes(arguments(&predicates(&flat)[0])), vec![2, 5]);
    assert_eq!(indexes(arguments(&predicates(&flat)[1])), vec![3, 4]);
    assert_eq!(rewriter.metadata.column(4).name(), "b");
    assert_eq!(rewriter.metadata.column(5).name(), "a");
}

#[test]
fn an_existence_test_becomes_a_semi_join() {
    let mut rewriter = rewriter();
    let plan = eval(
        vec![item(col(3), 3)],
        filter(
            vec![
                call("eq", vec![col(2), col(0)]),
                call("eq", vec![col(1), col(3)]),
                call("gt", vec![col(1), constant()]),
                call("lt", vec![col(3), constant()]),
                call("gt", vec![col(3), col(1)]),
                call("or", vec![col(2), col(0), col(1)]),
            ],
            scan_u(),
        ),
    );
    let expr = subquery(SubqueryType::Exists, plan, vec![0, 1]);
    let (plan, result) =
        rewriter.try_decorrelate_subquery(&scan_t(), &expr, &mut info(), true).unwrap();
    assert_eq!(result, UnnestResult::SimpleJoin);
    let semi = as_join(&plan);
    assert_eq!(semi.join_type, JoinType::LeftSemi);
    assert_eq!(semi.marker_index, None);
    assert!(semi.from_correlated_subquery);
    assert_eq!(indexes(&semi.left_conditions), vec![0, 1]);
    assert_eq!(indexes(&semi.right_conditions), vec![2, 3]);
    assert_eq!(semi.non_equi_conditions.len(), 2);
    assert_eq!(text(&semi.non_equi_conditions[0]), text(&call("gt", vec![col(3), col(1)])));
    assert_eq!(
        text(&semi.non_equi_conditions[1]),
        text(&call("or", vec![col(2), col(0), col(1)]))
    );
    let left = &plan.children[0];
    assert_eq!(text(predicates(left)), text(&vec![call("gt", vec![col(1), constant()])]));
    assert!(matches!(&*left.plan, RelOperator::Filter(filter) if !filter.is_having));
    assert_eq!(text(&*left.children[0]), text(&scan_t()));
    let right = &plan.children[1];
    assert_eq!(text(predicates(right)), text(&vec![call("lt", vec![col(3), constant()])]));
    let computed = &right.children[0];
    assert_eq!(text(items(computed)), text(&vec![item(col(3), 3)]));
    assert_eq!(text(&*computed.children[0]), text(&scan_u()));
    assert_eq!(rewriter.metadata.len(), 4);
    assert_eq!(rewriter.derived_columns.len(), 0);
}

#[test]
fn a_test_for_absence_becomes_an_anti_join() {
    let rewriter = rewriter();
    let expr = subquery(SubqueryType::NotExists, equal_plan(), vec![0]);
    let plan = rewriter.try_decorrelate_simple_subquery(&scan_t(), &expr).unwrap().unwrap();
    assert_eq!(as_join(&plan).join_type, JoinType::LeftAnti);
    assert_eq!(text(&*plan.children[0]), text(&scan_t()));
    assert_eq!(text(items(&plan.children[1])), text(&vec![item(col(3), 3)]));
    assert_eq!(text(&*plan.children[1].children[0]), text(&scan_u()));
    assert_eq!(outer_columns(&plan), Vec::<usize>::new());
}

#[test]
fn other_subqueries_are_not_simple() {
    let rewriter = rewriter();
    let t = scan_t();
    let any = subquery(SubqueryType::Any, equal_plan(), vec![0]);
    assert!(rewriter.try_decorrelate_simple_subquery(&t, &any).unwrap().is_none());
    let scalar = subquery(SubqueryType::Scalar, equal_plan(), vec![0]);
    assert!(rewriter.try_decorrelate_simple_subquery(&t, &scalar).unwrap().is_none());
    let all = subquery(SubqueryType::All, equal_plan(), vec![0]);
    assert!(rewriter.try_decorrelate_simple_subquery(&t, &all).unwrap().is_none());
    let uncorrelated = subquery(SubqueryType::Exists, equal_plan(), vec![]);
    assert!(rewriter.try_decorrelate_simple_subquery(&t, &uncorrelated).unwrap().is_none());
    let bare = filter(vec![call("eq", vec![col(2), col(0)])], scan_u());
    let bare = subquery(SubqueryType::Exists, bare, vec![0]);
    assert!(rewriter.try_decorrelate_simple_subquery(&t, &bare).unwrap().is_none());
    let deep = eval(
        vec![],
        filter(vec![], filter(vec![call("eq", vec![col(2), col(0)])], scan_u())),
    );
    let deep = subquery(SubqueryType::Exists, deep, vec![0]);
    assert!(rewriter.try_decorrelate_simple_subquery(&t, &deep).unwrap().is_none());
}

#[test]
fn a_computed_column_that_uses_an_outer_column_is_not_simple() {
    // exists (select a from u where x = a)
    let plan = eval(
        vec![item(col(0), 6)],
        filter(vec![call("eq", vec![col(2), col(0)])], scan_u()),
    );
    for typ in [SubqueryType::Exists, SubqueryType::NotExists].iter() {
        let mut rewriter = rewriter();
        let expr = subquery(*typ, plan.share(), vec![0]);
        assert!(rewriter.try_decorrelate_simple_subquery(&scan_t(), &expr).unwrap().is_none());
        let (join, result) =
            rewriter.try_decorrelate_subquery(&scan_t(), &expr, &mut info(), true).unwrap();
        assert_eq!(result, UnnestResult::MarkJoin { marker_index: 5 });
        assert_eq!(outer_columns(&join), Vec::<usize>::new());
    }
}

#[test]
fn an_input_that_lacks_its_input_is_an_error_of_the_simple_rewriting() {
    let rewriter = rewriter();
    let broken = SExpr::create_leaf(Arc::new(RelOperator::Filter(Filter {
        predicates: vec![],
        is_having: false,
    })));
    let exists = subquery(SubqueryType::Exists, equal_plan(), vec![0]);
    assert_eq!(
        rewriter.try_decorrelate_simple_subquery(&broken, &exists).unwrap_err(),
        ErrorCode::InvalidChild(0)
    );
    let scalar = subquery(SubqueryType::Scalar, equal_plan(), vec![0]);
    assert_eq!(
        rewriter.try_decorrelate_simple_subquery(&broken, &scalar).unwrap_err(),
        ErrorCode::InvalidChild(0)
    );
}

#[test]
fn an_existence_test_that_is_no_conjunct_becomes_a_mark_join() {
    for typ in [SubqueryType::Exists, SubqueryType::NotExists].iter() {
        let mut rewriter = rewriter();
        let expr = subquery(*typ, equal_plan(), vec![0]);
        let (plan, result) =
            rewriter.try_decorrelate_subquery(&scan_t(), &expr, &mut info(), false).unwrap();
        assert_eq!(result, UnnestResult::MarkJoin { marker_index: 4 });
        let mark = as_join(&plan);
        assert_eq!(mark.join_type, JoinType::RightMark);
        assert_eq!(mark.marker_index, Some(4));
        assert!(mark.non_equi_conditions.is_empty());
        assert_eq!(indexes(&mark.left_conditions), vec![0]);
        assert_eq!(indexes(&mark.right_conditions), vec![2]);
        assert_eq!(rewriter.metadata.len(), 5);
        assert_eq!(rewriter.metadata.column(4).name(), "marker");
        assert_eq!(
            rewriter.metadata.column(4).data_type(),
            DataType::Nullable(Box::new(DataType::Boolean))
        );
        assert_eq!(outer_columns(&plan), Vec::<usize>::new());
    }
}

#[test]
fn a_mark_goes_to_the_column_that_the_query_has_for_it() {
    let mut rewriter = rewriter();
    let mut expr = subquery(SubqueryType::Exists, equal_plan(), vec![0]);
    expr.projection_index = Some(9);
    let (plan, result) =
        rewriter.try_decorrelate_subquery(&scan_t(), &expr, &mut info(), false).unwrap();
    assert_eq!(result, UnnestResult::MarkJoin { marker_index: 9 });
    assert_eq!(as_join(&plan).marker_index, Some(9));
    assert_eq!(rewriter.metadata.len(), 4);
    assert!(output_columns(&plan).contains(&9));
}

#[test]
fn an_any_subquery_is_compared_in_a_mark_join() {
    let mut rewriter = rewriter();
    let mut expr = subquery(SubqueryType::Any, equal_plan(), vec![0]);
    expr.child_expr = Some(Box::new(col(1)));
    expr.compare_op = Some(ComparisonOp::Equal);
    let (plan, result) =
        rewriter.try_decorrelate_subquery(&scan_t(), &expr, &mut info(), true).unwrap();
    assert_eq!(result, UnnestResult::MarkJoin { marker_index: 4 });
    let mark = as_join(&plan);
    assert_eq!(mark.join_type, JoinType::RightMark);
    assert_eq!(indexes(&mark.left_conditions), vec![0]);
    assert_eq!(mark.non_equi_conditions.len(), 1);
    let compared = &mark.non_equi_conditions[0];
    assert!(matches!(compared, ScalarExpr::FunctionCall(func)
        if func.func_name == "eq" && func.params.is_empty() && func.span == expr.span));
    assert_eq!(text(&arguments(compared)[0]), text(&col(1)));
    let output = as_column(&arguments(compared)[1]);
    assert_eq!(output.span, expr.span);
    assert_eq!(output.column.column_name, "subquery_3");
    assert_eq!(output.column.index, 3);
    assert_eq!(*output.column.data_type, DataType::Other(3));
    assert_eq!(output.column.visibility, Visibility::Visible);
}

#[test]
fn an_incomplete_any_subquery_has_no_rewriting() {
    let mut expr = subquery(SubqueryType::Any, equal_plan(), vec![0]);
    expr.child_expr = Some(Box::new(col(1)));
    let stop = rewriter().decorrelate_checked(&scan_t(), &expr, &mut info(), true).unwrap_err();
    assert_eq!(stop, Stop::Undefined);
    expr.child_expr = None;
    expr.compare_op = Some(ComparisonOp::GT);
    let stop = rewriter().decorrelate_checked(&scan_t(), &expr, &mut info(), true).unwrap_err();
    assert_eq!(stop, Stop::Undefined);
}

#[test]
fn an_all_subquery_has_no_rewriting() {
    let expr = subquery(SubqueryType::All, equal_plan(), vec![0]);
    let stop = rewriter().decorrelate_checked(&scan_t(), &expr, &mut info(), true).unwrap_err();
    assert_eq!(stop, Stop::Undefined);
}

#[test]
fn two_correlated_columns_in_an_equation_have_no_rewriting() {
    let plan = filter(vec![call("eq", vec![col(0), col(1)])], scan_u());
    let stop = rewriter().flatten(&plan, &set(vec![0, 1]), &mut info(), false).unwrap_err();
    assert_eq!(stop, Stop::Undefined);
}

#[test]
fn an_equation_with_one_side_has_no_rewriting() {
    let plan = filter(vec![call("eq", vec![col(0)])], scan_u());
    let stop = rewriter().flatten(&plan, &set(vec![0]), &mut info(), false).unwrap_err();
    assert_eq!(stop, Stop::Undefined);
}

#[test]
fn a_correlated_column_of_no_table_has_no_cross_join() {
    let mut rewriter = SubqueryRewriter::new(Metadata {
        columns: vec![ColumnEntry::DerivedColumn(DerivedColumn {
            column_index: 0,
            alias: "a + 1".to_string(),
            data_type: DataType::Boolean,
        })],
    });
    let stop = rewriter.flatten(&scan_u(), &set(vec![0]), &mut info(), true).unwrap_err();
    assert_eq!(stop, Stop::Undefined);
}

#[test]
fn a_correlated_column_that_is_not_referred_to_has_no_rewriting() {
    let expr = subquery(SubqueryType::Scalar, equal_plan(), vec![0, 1]);
    let stop = rewriter().decorrelate_checked(&scan_t(), &expr, &mut info(), true).unwrap_err();
    assert_eq!(stop, Stop::Undefined);
}

#[test]
fn an_unknown_derived_column_has_no_rewriting() {
    let plan = eval(
        vec![item(col(3), 3)],
        filter(vec![call("eq", vec![col(20), col(0)])], scan(1, vec![2, 3, 20])),
    );
    let stop = rewriter().flatten(&plan, &set(vec![0]), &mut info(), false).unwrap_err();
    assert_eq!(stop, Stop::Undefined);
}

#[test]
fn a_plan_that_takes_nothing_from_around_it_stays() {
    let mut rewriter = rewriter();
    let plan = filter(vec![call("gt", vec![col(3), constant()])], scan_u());
    let flat = rewriter.flatten(&plan, &set(vec![0]), &mut info(), false).unwrap();
    assert_eq!(text(&flat), text(&plan));
    assert_eq!(rewriter.metadata.len(), 4);
    assert_eq!(rewriter.derived_columns.len(), 0);
}

#[test]
fn an_operator_without_its_input_is_an_error() {
    let lonely = SExpr::create_leaf(Arc::new(RelOperator::Filter(Filter {
        predicates: vec![call("eq", vec![col(2), col(0)])],
        is_having: false,
    })));
    let stop = rewriter().flatten(&lonely, &set(vec![0]), &mut info(), false).unwrap_err();
    assert_eq!(stop, Stop::Failed(ErrorCode::InvalidChild(0)));
    let half = SExpr::create_unary(
        Arc::new(RelOperator::UnionAll(UnionAll { pairs: vec![(2, 3)] })),
        Arc::new(scan_u()),
    );
    let stop = rewriter().flatten(&half, &set(vec![0]), &mut info(), false).unwrap_err();
    assert_eq!(stop, Stop::Failed(ErrorCode::InvalidChild(1)));
}

#[test]
fn an_operator_without_a_rule_is_an_error() {
    let window = SExpr::create_leaf(Arc::new(RelOperator::Opaque(OpaquePlan {
        id: 1,
        output_columns: set(vec![2]),
        outer_columns: set(vec![0]),
    })));
    let stop = rewriter().flatten(&window, &set(vec![0]), &mut info(), false).unwrap_err();
    assert_eq!(stop, Stop::Failed(ErrorCode::InvalidPlan));
    let expr = subquery(SubqueryType::Scalar, window, vec![0]);
    let error =
        rewriter().try_decorrelate_subquery(&scan_t(), &expr, &mut info(), true).unwrap_err();
    assert_eq!(error, ErrorCode::InvalidPlan);
}

#[test]
fn a_scalar_without_a_rule_is_an_error() {
    let window = ScalarExpr::Opaque(OpaqueScalar { id: 4, used_columns: set(vec![]) });
    let plan = filter(vec![call("eq", vec![col(2), col(0)]), window], scan_u());
    let stop = rewriter().flatten(&plan, &set(vec![0]), &mut info(), false).unwrap_err();
    assert_eq!(stop, Stop::Failed(ErrorCode::InvalidScalar));
    let nested = Arc::new(subquery(SubqueryType::Scalar, equal_plan(), vec![1]));
    let stop = rewriter()
        .flatten_scalar(&ScalarExpr::SubqueryExpr(nested), &set(vec![0]))
        .unwrap_err();
    assert_eq!(stop, Stop::Failed(ErrorCode::InvalidScalar));
}

#[test]
fn scalars_of_every_kind_are_flattened() {
    let mut rewriter = rewriter();
    rewriter.derived_columns.insert(0, 2);
    let correlated = set(vec![0]);
    let flat = rewriter.flatten_scalar(&col(0), &correlated).unwrap();
    let column = as_column(&flat);
    assert_eq!(column.span, Some(SourceRange { start: 7, end: 8 }));
    assert_eq!(column.column.index, 2);
    assert_eq!(column.column.column_name, "x");
    assert_eq!(column.column.database_name, None);
    assert_eq!(column.column.table_index, None);
    assert_eq!(column.column.visibility, Visibility::InVisible);
    assert_eq!(*column.column.data_type, DataType::Other(2));
    let flat = rewriter.flatten_scalar(&col(1), &correlated).unwrap();
    assert_eq!(text(&flat), text(&col(1)));
    let flat = rewriter.flatten_scalar(&constant(), &correlated).unwrap();
    assert_eq!(text(&flat), text(&constant()));
    let cast = ScalarExpr::CastExpr(CastExpr {
        span: None,
        is_try: true,
        argument: Box::new(agg("sum", vec![call("plus", vec![col(0), col(3)])])),
        target_type: Box::new(DataType::Boolean),
    });
    match rewriter.flatten_scalar(&cast, &correlated).unwrap() {
        ScalarExpr::CastExpr(cast) => {
            assert!(cast.is_try);
            assert_eq!(*cast.target_type, DataType::Boolean);
            match *cast.argument {
                ScalarExpr::AggregateFunction(sum) => {
                    assert_eq!(sum.func_name, "sum");
                    assert_eq!(sum.display_name, "sum(..)");
                    assert!(sum.distinct);
                    assert_eq!(sum.params, vec![Scalar::Boolean(true)]);
                    assert_eq!(*sum.return_type, DataType::Other(77));
                    assert_eq!(indexes(arguments(&sum.args[0])), vec![2, 3]);
                    assert!(matches!(&sum.args[0], ScalarExpr::FunctionCall(func)
                        if func.func_name == "plus" && func.params == vec![1, 2]));
                }
                _ => panic!("no aggregate function"),
            }
        }
        _ => panic!("no cast"),
    }
    rewriter.derived_columns.clear();
    assert_eq!(rewriter.flatten_scalar(&col(0), &correlated).unwrap_err(), Stop::Undefined);
}

#[test]
fn an_aggregation_groups_by_the_derived_columns() {
    let mut rewriter = rewriter();
    let mut found = info();
    let plan = aggregate(
        vec![item(col(3), 3)],
        vec![item(agg("sum", vec![col(3)]), 6)],
        filter(vec![call("eq", vec![col(2), col(0)])], scan_u()),
    );
    let flat = rewriter.flatten(&plan, &set(vec![0]), &mut found, false).unwrap();
    let grouped = as_aggregate(&flat);
    assert_eq!(grouped.mode, AggregateMode::Initial);
    assert_eq!(grouped.group_items.iter().map(|i| i.index).collect::<Vec<_>>(), vec![3, 2]);
    let added = as_column(&grouped.group_items[1].scalar);
    assert_eq!(added.span, None);
    assert_eq!(added.column.column_name, "subquery_2");
    assert_eq!(added.column.index, 2);
    assert_eq!(*added.column.data_type, DataType::Other(2));
    assert_eq!(grouped.aggregate_functions[0].index, 6);
    assert!(grouped.from_distinct);
    assert_eq!(grouped.limit, Some(3));
    assert_eq!(grouped.grouping_id_index, 11);
    assert_eq!(grouped.grouping_sets, vec![vec![1, 2], vec![]]);
    assert!(!found.from_count_func);
    assert_eq!(output_columns(&flat), vec![2, 3, 6]);
}

#[test]
fn an_aggregate_function_that_counts_is_noted() {
    for name in ["count", "Count", "count_distinct"].iter() {
        let mut found = info();
        let plan = aggregate(
            vec![],
            vec![item(agg("sum", vec![col(3)]), 6), item(agg(name, vec![]), 7)],
            filter(vec![call("eq", vec![col(2), col(0)])], scan_u()),
        );
        rewriter().flatten(&plan, &set(vec![0]), &mut found, false).unwrap();
        assert!(found.from_count_func);
    }
}

#[test]
fn a_count_beneath_an_uncorrelated_plan_is_not_noted() {
    let mut found = info();
    let plan = aggregate(vec![], vec![item(agg("count", vec![col(3)]), 6)], scan_u());
    rewriter().flatten(&plan, &set(vec![0]), &mut found, true).unwrap();
    assert!(!found.from_count_func);
}

#[test]
fn an_earlier_note_of_a_count_stays() {
    let mut found = FlattenInfo { from_count_func: true };
    rewriter().flatten(&equal_plan(), &set(vec![0]), &mut found, false).unwrap();
    assert!(found.from_count_func);
}

#[test]
fn a_correlated_column_among_computed_columns_needs_a_cross_join() {
    let mut rewriter = rewriter();
    let plan = eval(vec![item(call("plus", vec![col(0), col(3)]), 6)], scan_u());
    let flat = rewriter.flatten(&plan, &set(vec![0]), &mut info(), false).unwrap();
    assert_eq!(indexes(arguments(&items(&flat)[0].scalar)), vec![4, 3]);
    assert_eq!(items(&flat)[1].index, 4);
    assert_eq!(as_join(&flat.children[0]).join_type, JoinType::Cross);
    assert_eq!(outer_columns(&flat), Vec::<usize>::new());
    assert_eq!(output_columns(&flat), vec![2, 3, 4, 6]);
}

#[test]
fn a_join_is_flattened_on_both_sides() {
    let mut rewriter = rewriter();
    let left = filter(vec![call("lt", vec![col(2), col(0)])], scan_u());
    let right = filter(vec![call("lt", vec![col(6), col(0)])], scan(2, vec![6]));
    let plan = join(vec![call("eq", vec![col(2), col(6)])], left, right);
    let flat = rewriter.flatten(&plan, &set(vec![0]), &mut info(), false).unwrap();
    let inner = as_join(&flat);
    assert_eq!(inner.join_type, JoinType::Inner);
    assert_eq!(inner.marker_index, Some(12));
    assert!(!inner.from_correlated_subquery);
    assert!(!inner.contain_runtime_filter);
    assert_eq!(
        text(&inner.non_equi_conditions),
        text(&vec![call("eq", vec![col(2), col(6)])])
    );
    assert_eq!(indexes(arguments(&predicates(&flat.children[0])[0])), vec![2, 4]);
    assert_eq!(indexes(arguments(&predicates(&flat.children[1])[0])), vec![6, 5]);
    assert_eq!(rewriter.derived_columns.get(0), Some(5));
    assert_eq!(rewriter.metadata.len(), 6);
    assert_eq!(outer_columns(&flat), Vec::<usize>::new());
    assert!(output_columns(&flat).contains(&5));
}

#[test]
fn the_conditions_of_a_join_stay_as_they_are() {
    let mut rewriter = rewriter();
    let plan = join(vec![call("eq", vec![col(2), col(0)])], scan_u(), scan(2, vec![6]));
    let flat = rewriter.flatten(&plan, &set(vec![0]), &mut info(), false).unwrap();
    assert_eq!(as_join(&flat.children[0]).join_type, JoinType::Cross);
    assert_eq!(as_join(&flat.children[1]).join_type, JoinType::Cross);
    assert_eq!(outer_columns(&flat), vec![0]);
}

#[test]
fn sorting_and_limits_stay_over_a_flat_input() {
    let mut rewriter = rewriter();
    let sort = RelOperator::Sort(Sort {
        items: vec![SortItem { index: 3, asc: true, nulls_first: false }],
        limit: Some(1),
    });
    let limit = RelOperator::Limit(Limit { limit: Some(1), offset: 2, before_exchange: false });
    let plan = over(limit, over(sort, equal_plan()));
    let flat = rewriter.flatten(&plan, &set(vec![0]), &mut info(), false).unwrap();
    assert_eq!(text(&*flat.plan), text(&*plan.plan));
    assert_eq!(text(&*flat.children[0].plan), text(&*plan.children[0].plan));
    assert_eq!(items(&flat.children[0].children[0]).len(), 2);
}

#[test]
fn a_union_is_flattened_on_both_sides() {
    let mut rewriter = rewriter();
    let plan = SExpr::create_binary(
        Arc::new(RelOperator::UnionAll(UnionAll { pairs: vec![(3, 2)] })),
        Arc::new(equal_plan()),
        Arc::new(filter(vec![call("eq", vec![col(3), col(0)])], scan_u())),
    );
    let flat = rewriter.flatten(&plan, &set(vec![0]), &mut info(), false).unwrap();
    assert_eq!(text(&*flat.plan), text(&*plan.plan));
    assert_eq!(indexes(arguments(&predicates(&flat.children[1])[0])), vec![3, 3]);
    assert_eq!(rewriter.derived_columns.get(0), Some(3));
}

#[test]
fn equations_need_no_cross_join_and_anything_else_does() {
    let correlated = set(vec![0]);
    let equation = Filter {
        predicates: vec![
            call("eq", vec![col(2), col(0)]),
            call("gt", vec![col(2), col(3)]),
        ],
        is_having: false,
    };
    let mut first = rewriter();
    assert_eq!(first.join_outer_inner_table(&equation, &correlated), Ok(false));
    assert_eq!(first.derived_columns.get(0), Some(2));
    let computed = Filter {
        predicates: vec![call("eq", vec![call("plus", vec![col(2)]), col(0)])],
        is_having: false,
    };
    assert_eq!(rewriter().join_outer_inner_table(&computed, &correlated), Ok(true));
    let bare = Filter { predicates: vec![col(0)], is_having: false };
    assert_eq!(rewriter().join_outer_inner_table(&bare, &correlated), Ok(true));
    let broken = Filter { predicates: vec![call("eq", vec![col(0)])], is_having: false };
    assert_eq!(
        rewriter().join_outer_inner_table(&broken, &correlated),
        Err(Stop::Undefined)
    );
}

#[test]
fn equality_conditions_are_added_in_the_order_of_the_columns() {
    let mut rewriter = rewriter();
    rewriter.derived_columns.insert(1, 2);
    rewriter.derived_columns.insert(0, 3);
    let mut inner = vec![constant()];
    let mut outer = vec![];
    let added = rewriter.add_equi_conditions(None, &set(vec![0, 1]), &mut inner, &mut outer);
    assert_eq!(added, Ok(()));
    assert_eq!(indexes(&outer), vec![0, 1]);
    assert_eq!(inner.len(), 3);
    assert_eq!((index_of(&inner[1]), index_of(&inner[2])), (3, 2));
    let missing = rewriter.add_equi_conditions(None, &set(vec![2]), &mut inner, &mut outer);
    assert_eq!(missing, Err(Stop::Undefined));
}

#[test]
fn a_plan_is_walked_once_with_a_fresh_rewriter() {
    let (columns, plan) = decorrelate_subquery(metadata(), scan_t(), |mut rewriter, plan| {
        assert_eq!(rewriter.derived_columns.len(), 0);
        assert_eq!(rewriter.metadata.len(), 4);
        let expr = subquery(SubqueryType::Exists, equal_plan(), vec![0]);
        let result = rewriter.try_decorrelate_subquery(plan, &expr, &mut info(), false);
        (rewriter, result.map(|(plan, _)| plan))
    });
    assert_eq!(columns.len(), 5);
    assert_eq!(as_join(&plan.unwrap()).join_type, JoinType::RightMark);
    let (columns, plan) = decorrelate_subquery(metadata(), scan_t(), |rewriter, _| {
        (rewriter, Err(ErrorCode::InvalidPlan))
    });
    assert_eq!(columns.len(), 4);
    assert_eq!(plan.unwrap_err(), ErrorCode::InvalidPlan);
}

#[test]
fn every_kind_of_column_has_a_name_and_a_type() {
    let internal = ColumnEntry::InternalColumn(TableInternalColumn {
        table_index: 0,
        column_index: 5,
        column_name: "_row_id".to_string(),
        data_type: DataType::Other(9),
    });
    assert_eq!((internal.name(), internal.data_type()), ("_row_id".to_string(), DataType::Other(9)));
    let part = ColumnEntry::VirtualColumn(VirtualColumn {
        table_index: 0,
        column_index: 6,
        column_name: "v['k']".to_string(),
        data_type: DataType::Boolean,
    });
    assert_eq!((part.name(), part.data_type()), ("v['k']".to_string(), DataType::Boolean));
}

#[test]
fn the_table_of_columns_is_that_of_the_first_table_column() {
    let columns = metadata();
    assert_eq!(columns.table_index_by_column_indexes(&set(vec![3, 1])), Some(0));
    assert_eq!(columns.table_index_by_column_indexes(&set(vec![3])), Some(1));
    assert_eq!(columns.table_index_by_column_indexes(&set(vec![8])), None);
}

#[test]
fn a_flat_plan_gives_what_the_plan_gave() {
    let plan = less_plan();
    let flat = rewriter().flatten(&plan, &set(vec![0]), &mut info(), false).unwrap();
    assert_eq!(output_columns(&plan), vec![2, 3]);
    assert_eq!(output_columns(&flat), vec![2, 3, 4]);
    assert_eq!(outer_columns(&plan), vec![0]);
    assert_eq!(outer_columns(&flat), Vec::<usize>::new());
}

#[test]
fn a_rewriter_that_served_another_subquery_derives_columns_of_this_one() {
    let mut rewriter = rewriter();
    rewriter.derived_columns.insert(1, 3);
    let expr = subquery(SubqueryType::Scalar, equal_plan(), vec![0]);
    let (plan, _) =
        rewriter.try_decorrelate_subquery(&scan_t(), &expr, &mut info(), true).unwrap();
    assert_eq!(indexes(&as_join(&plan).left_conditions), vec![0]);
    assert_eq!(indexes(&as_join(&plan).right_conditions), vec![2]);
    assert!(output_columns(&plan.children[1]).contains(&2));
    assert_eq!(rewriter.derived_columns.get(1), Some(3));
}

#[test]
fn an_older_derived_column_of_a_correlated_column_is_replaced() {
    let mut rewriter = rewriter();
    rewriter.derived_columns.insert(0, 3);
    let expr = subquery(SubqueryType::Scalar, equal_plan(), vec![0]);
    let (plan, _) =
        rewriter.try_decorrelate_subquery(&scan_t(), &expr, &mut info(), true).unwrap();
    assert_eq!(indexes(&as_join(&plan).right_conditions), vec![2]);
    assert_eq!(rewriter.derived_columns.get(0), Some(2));
}

#[test]
fn an_equation_of_two_correlated_columns_keeps_their_older_derived_columns() {
    let mut rewriter = rewriter();
    rewriter.derived_columns.insert(0, 2);
    rewriter.derived_columns.insert(1, 3);
    let plan = filter(vec![call("eq", vec![col(0), col(1)])], scan(2, vec![6]));
    let expr = subquery(SubqueryType::Scalar, plan, vec![0, 1]);
    let (plan, _) =
        rewriter.try_decorrelate_subquery(&scan_t(), &expr, &mut info(), true).unwrap();
    assert_eq!(indexes(&as_join(&plan).right_conditions), vec![2, 3]);
    assert_eq!(output_columns(&plan.children[1]), vec![6]);
}
