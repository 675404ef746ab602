use decorrelate::column_map::ColumnMap;
use decorrelate::column_set::ColumnSet;
use decorrelate::error::{ErrorCode, Stop};
use decorrelate::names::{is_named, name_subquery_column, names_count};
use decorrelate::scalar::ComparisonOp;

#[test]
fn subquery_columns_are_named_by_their_number() {
    assert_eq!(name_subquery_column(0), "subquery_0");
    assert_eq!(name_subquery_column(9), "subquery_9");
    assert_eq!(name_subquery_column(10), "subquery_10");
    assert_eq!(name_subquery_column(90817), "subquery_90817");
    assert_eq!(name_subquery_column(usize::MAX), format!("subquery_{}", usize::MAX));
}

#[test]
fn count_is_known_in_any_case_and_count_distinct_in_lower_case() {
    assert!(names_count(&"count".to_string()));
    assert!(names_count(&"COUNT".to_string()));
    assert!(names_count(&"CoUnT".to_string()));
    assert!(names_count(&"count_distinct".to_string()));
    assert!(!names_count(&"COUNT_DISTINCT".to_string()));
    assert!(!names_count(&"counts".to_string()));
    assert!(!names_count(&"coun".to_string()));
    assert!(!names_count(&"sum".to_string()));
    assert!(!names_count(&"".to_string()));
}

#[test]
fn names_are_compared_with_their_case() {
    assert!(is_named(&"eq".to_string(), "eq"));
    assert!(!is_named(&"EQ".to_string(), "eq"));
    assert!(!is_named(&"noteq".to_string(), "eq"));
}

#[test]
fn comparisons_have_function_names() {
    let all = [
        (ComparisonOp::Equal, "eq"),
        (ComparisonOp::NotEqual, "noteq"),
        (ComparisonOp::GT, "gt"),
        (ComparisonOp::LT, "lt"),
        (ComparisonOp::GTE, "gte"),
        (ComparisonOp::LTE, "lte"),
    ];
    for (op, name) in all.iter() {
        assert_eq!(op.to_func_name(), *name);
        assert_eq!(ComparisonOp::try_from_func_name(&name.to_string()), Some(*op));
        assert_eq!(op.reverse().reverse(), *op);
    }
    assert_eq!(ComparisonOp::try_from_func_name(&"plus".to_string()), None);
    assert_eq!(ComparisonOp::GT.reverse(), ComparisonOp::LT);
    assert_eq!(ComparisonOp::GTE.reverse(), ComparisonOp::LTE);
    assert_eq!(ComparisonOp::Equal.reverse(), ComparisonOp::Equal);
    assert_eq!(ComparisonOp::NotEqual.reverse(), ComparisonOp::NotEqual);
}

#[test]
fn errors_have_texts() {
    assert_eq!(ErrorCode::InvalidChild(1).message(), "Invalid children index: 1");
    assert_eq!(ErrorCode::InvalidPlan.message(), "Invalid plan type for flattening subquery");
    assert_eq!(ErrorCode::InvalidScalar.message(), "Invalid scalar for flattening subquery");
    assert_ne!(Stop::Undefined, Stop::Failed(ErrorCode::InvalidPlan));
}

#[test]
fn a_column_set_keeps_the_order_of_its_columns() {
    let mut set = ColumnSet::from_columns(&vec![5, 3, 5, 8]);
    assert_eq!(set.len(), 3);
    assert_eq!((set.get(0), set.get(1), set.get(2)), (5, 3, 8));
    set.insert(3);
    set.insert(1);
    assert_eq!(set.len(), 4);
    assert_eq!(set.get(3), 1);
    let other = ColumnSet::from_columns(&vec![1, 8]);
    assert!(other.is_subset(&set));
    assert!(!set.is_subset(&other));
    assert!(set.intersects(&other));
    let rest = set.difference(&other);
    assert_eq!((rest.len(), rest.get(0), rest.get(1)), (2, 5, 3));
    assert!(!rest.intersects(&other));
    assert!(ColumnSet::new().is_empty());
    assert!(!rest.is_empty());
}

#[test]
fn a_column_map_gives_what_was_put_in_last() {
    let mut map = ColumnMap::new();
    map.insert(4, 40);
    map.insert(7, 70);
    map.insert(4, 41);
    assert_eq!(map.get(4), Some(41));
    assert_eq!(map.get(7), Some(70));
    assert_eq!(map.get(5), None);
    assert_eq!(map.len(), 2);
    assert_eq!((map.value_at(0), map.value_at(1)), (41, 70));
    assert!(map.values().contains(41));
    assert!(!map.values().contains(40));
    map.clear();
    assert_eq!(map.len(), 0);
    assert_eq!(map.get(4), None);
}
