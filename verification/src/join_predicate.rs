//! Which side of a join a predicate is about.

use vstd::prelude::*;

use crate::names::is_named;
use crate::property::RelationalProperty;
use crate::scalar::{lemma_scalar_views, used_columns, ComparisonOp, ScalarExpr, ScalarView};

verus! {

/// The function that a comparison is written as.
pub open spec fn func_name(op: ComparisonOp) -> Seq<char> {
    match op {
        ComparisonOp::Equal => "eq"@,
        ComparisonOp::NotEqual => "noteq"@,
        ComparisonOp::GT => "gt"@,
        ComparisonOp::LT => "lt"@,
        ComparisonOp::GTE => "gte"@,
        ComparisonOp::LTE => "lte"@,
    }
}

/// The comparison that says the same with its sides exchanged.
pub open spec fn reversed(op: ComparisonOp) -> ComparisonOp {
    match op {
        ComparisonOp::Equal => ComparisonOp::Equal,
        ComparisonOp::NotEqual => ComparisonOp::NotEqual,
        ComparisonOp::GT => ComparisonOp::LT,
        ComparisonOp::LT => ComparisonOp::GT,
        ComparisonOp::GTE => ComparisonOp::LTE,
        ComparisonOp::LTE => ComparisonOp::GTE,
    }
}

/// The comparison that a function stands for.
pub open spec fn comparison_named(name: Seq<char>) -> Option<ComparisonOp> {
    if name == func_name(ComparisonOp::Equal) {
        Some(ComparisonOp::Equal)
    } else if name == func_name(ComparisonOp::NotEqual) {
        Some(ComparisonOp::NotEqual)
    } else if name == func_name(ComparisonOp::GT) {
        Some(ComparisonOp::GT)
    } else if name == func_name(ComparisonOp::LT) {
        Some(ComparisonOp::LT)
    } else if name == func_name(ComparisonOp::GTE) {
        Some(ComparisonOp::GTE)
    } else if name == func_name(ComparisonOp::LTE) {
        Some(ComparisonOp::LTE)
    } else {
        None
    }
}

impl ComparisonOp {
    /// The function that the comparison is written as.
    pub fn to_func_name(&self) -> (r: String)
        ensures
            r@ == func_name(*self),
    {
        match self {
            ComparisonOp::Equal => "eq".to_string(),
            ComparisonOp::NotEqual => "noteq".to_string(),
            ComparisonOp::GT => "gt".to_string(),
            ComparisonOp::LT => "lt".to_string(),
            ComparisonOp::GTE => "gte".to_string(),
            ComparisonOp::LTE => "lte".to_string(),
        }
    }

    /// The comparison that a function stands for.
    pub fn try_from_func_name(name: &String) -> (r: Option<ComparisonOp>)
        ensures
            r == comparison_named(name@),
    {
        if is_named(name, "eq") {
            Some(ComparisonOp::Equal)
        } else if is_named(name, "noteq") {
            Some(ComparisonOp::NotEqual)
        } else if is_named(name, "gt") {
            Some(ComparisonOp::GT)
        } else if is_named(name, "lt") {
            Some(ComparisonOp::LT)
        } else if is_named(name, "gte") {
            Some(ComparisonOp::GTE)
        } else if is_named(name, "lte") {
            Some(ComparisonOp::LTE)
        } else {
            None
        }
    }

    /// The comparison that says the same with its sides exchanged.
    pub fn reverse(&self) -> (r: ComparisonOp)
        ensures
            r == reversed(*self),
    {
        match self {
            ComparisonOp::Equal => ComparisonOp::Equal,
            ComparisonOp::NotEqual => ComparisonOp::NotEqual,
            ComparisonOp::GT => ComparisonOp::LT,
            ComparisonOp::LT => ComparisonOp::GT,
            ComparisonOp::GTE => ComparisonOp::LTE,
            ComparisonOp::LTE => ComparisonOp::GTE,
        }
    }
}

/// A predicate, sorted by the inputs of a join that it refers to.
pub enum JoinPredicate<'a> {
    /// It refers to the left input alone.
    Left(&'a ScalarExpr),
    /// It refers to the right input alone.
    Right(&'a ScalarExpr),
    /// It compares something of the left input with something of the right.
    Both { left: &'a ScalarExpr, right: &'a ScalarExpr, op: ComparisonOp },
    /// Anything else.
    Other(&'a ScalarExpr),
}

/// A [`JoinPredicate`] by its contents.
pub enum JoinPredicateView {
    Left(ScalarView),
    Right(ScalarView),
    Both { left: ScalarView, right: ScalarView, op: ComparisonOp },
    Other(ScalarView),
}

impl<'a> View for JoinPredicate<'a> {
    type V = JoinPredicateView;

    open spec fn view(&self) -> JoinPredicateView {
        match *self {
            JoinPredicate::Left(scalar) => JoinPredicateView::Left(scalar@),
            JoinPredicate::Right(scalar) => JoinPredicateView::Right(scalar@),
            JoinPredicate::Both { left, right, op } => JoinPredicateView::Both {
                left: left@,
                right: right@,
                op,
            },
            JoinPredicate::Other(scalar) => JoinPredicateView::Other(scalar@),
        }
    }
}

/// Whether a plan that gives `columns` gives everything that a scalar refers to.
pub open spec fn satisfied_by(scalar: ScalarView, columns: Set<usize>) -> bool {
    used_columns(scalar).subset_of(columns)
}

/// How a predicate sorts, over inputs that give the columns `left` and `right`.
pub open spec fn classify(scalar: ScalarView, left: Set<usize>, right: Set<usize>) -> JoinPredicateView {
    if satisfied_by(scalar, left) {
        JoinPredicateView::Left(scalar)
    } else if satisfied_by(scalar, right) {
        JoinPredicateView::Right(scalar)
    } else {
        match scalar {
            ScalarView::FunctionCall(func) => match comparison_named(func.func_name) {
                Some(op) => if func.arguments.len() != 2 {
                    JoinPredicateView::Other(scalar)
                } else if satisfied_by(func.arguments[0], left) && satisfied_by(
                    func.arguments[1],
                    right,
                ) {
                    JoinPredicateView::Both { left: func.arguments[0], right: func.arguments[1], op }
                } else if satisfied_by(func.arguments[1], left) && satisfied_by(
                    func.arguments[0],
                    right,
                ) {
                    JoinPredicateView::Both {
                        left: func.arguments[1],
                        right: func.arguments[0],
                        op: reversed(op),
                    }
                } else {
                    JoinPredicateView::Other(scalar)
                },
                None => JoinPredicateView::Other(scalar),
            },
            _ => JoinPredicateView::Other(scalar),
        }
    }
}

fn is_satisfied_by(scalar: &ScalarExpr, prop: &RelationalProperty) -> (r: bool)
    ensures
        r == satisfied_by(scalar@, prop@.output_columns),
{
    scalar.used_columns().is_subset(&prop.output_columns)
}

impl<'a> JoinPredicate<'a> {
    /// Sorts a predicate by the inputs that it refers to.
    pub fn new(
        scalar: &'a ScalarExpr,
        left_prop: &RelationalProperty,
        right_prop: &RelationalProperty,
    ) -> (r: Self)
        ensures
            r@ == classify(scalar@, left_prop@.output_columns, right_prop@.output_columns),
    {
        if is_satisfied_by(scalar, left_prop) {
            return JoinPredicate::Left(scalar);
        }
        if is_satisfied_by(scalar, right_prop) {
            return JoinPredicate::Right(scalar);
        }
        if let ScalarExpr::FunctionCall(func) = scalar {
            proof {
                lemma_scalar_views(func.arguments@);
            }
            if let Some(op) = ComparisonOp::try_from_func_name(&func.func_name) {
                if func.arguments.len() == 2 {
                    let first = &func.arguments[0];
                    let second = &func.arguments[1];
                    if is_satisfied_by(first, left_prop) && is_satisfied_by(second, right_prop) {
                        return JoinPredicate::Both { left: first, right: second, op };
                    }
                    if is_satisfied_by(second, left_prop) && is_satisfied_by(first, right_prop) {
                        return JoinPredicate::Both { left: second, right: first, op: op.reverse() };
                    }
                }
            }
        }
        JoinPredicate::Other(scalar)
    }
}

} // verus!
