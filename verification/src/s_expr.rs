//! Plans as trees of operators.

use std::sync::Arc;
use vstd::prelude::*;

use crate::error::ErrorCode;
use crate::plan::{rel_op, RelOp, RelOperator, RelOperatorView};

verus! {

/// An operator and the plans that are its inputs.
#[derive(Debug)]
pub struct SExpr {
    pub plan: Arc<RelOperator>,
    pub children: Vec<Arc<SExpr>>,
}

/// An [`SExpr`] by its contents.
pub struct SExprView {
    pub plan: RelOperatorView,
    pub children: Seq<SExprView>,
}

impl View for SExpr {
    type V = SExprView;

    open spec fn view(&self) -> SExprView {
        s_expr_view(*self)
    }
}

/// The contents of a plan.
pub open spec fn s_expr_view(s_expr: SExpr) -> SExprView
    decreases s_expr,
{
    SExprView {
        plan: s_expr.plan@,
        children: Seq::new(
            s_expr.children@.len(),
            |i: int|
                if 0 <= i < s_expr.children@.len() {
                    s_expr_view(*s_expr.children@[i])
                } else {
                    arbitrary()
                },
        ),
    }
}

impl SExprView {
    /// A plan without inputs.
    pub open spec fn leaf(plan: RelOperatorView) -> SExprView {
        SExprView { plan, children: Seq::empty() }
    }

    /// A plan with one input.
    pub open spec fn unary(plan: RelOperatorView, child: SExprView) -> SExprView {
        SExprView { plan, children: seq![child] }
    }

    /// A plan with two inputs.
    pub open spec fn binary(plan: RelOperatorView, left: SExprView, right: SExprView) -> SExprView {
        SExprView { plan, children: seq![left, right] }
    }
}

/// The shape of a plan: the kinds of its operators.
#[derive(Debug)]
pub struct PatternPlan {
    pub plan_type: RelOp,
    pub children: Vec<PatternPlan>,
}

/// Whether a plan has the shape of a pattern.
pub open spec fn matches_pattern(s_expr: SExprView, pattern: PatternPlan) -> bool
    decreases pattern,
{
    &&& rel_op(s_expr.plan) == pattern.plan_type
    &&& s_expr.children.len() == pattern.children@.len()
    &&& forall|i: int|
        0 <= i < pattern.children@.len() ==> matches_pattern(
            #[trigger] s_expr.children[i],
            pattern.children@[i],
        )
}

impl SExpr {
    /// A plan without inputs.
    pub fn create_leaf(plan: Arc<RelOperator>) -> (r: Self)
        ensures
            r@ == SExprView::leaf(plan@),
    {
        let r = SExpr { plan, children: Vec::new() };
        assert(r@.children =~= Seq::<SExprView>::empty());
        r
    }

    /// A plan with one input.
    pub fn create_unary(plan: Arc<RelOperator>, child: Arc<SExpr>) -> (r: Self)
        ensures
            r@ == SExprView::unary(plan@, child@),
    {
        let mut children: Vec<Arc<SExpr>> = Vec::new();
        children.push(child);
        let r = SExpr { plan, children };
        assert(r@.children =~= seq![child@]);
        r
    }

    /// A plan with two inputs.
    pub fn create_binary(plan: Arc<RelOperator>, left: Arc<SExpr>, right: Arc<SExpr>) -> (r: Self)
        ensures
            r@ == SExprView::binary(plan@, left@, right@),
    {
        let mut children: Vec<Arc<SExpr>> = Vec::new();
        children.push(left);
        children.push(right);
        let r = SExpr { plan, children };
        assert(r@.children =~= seq![left@, right@]);
        r
    }

    /// A plan that shares its operators with this one.
    pub fn share(&self) -> (r: Self)
        ensures
            r@ == self@,
    {
        let mut children: Vec<Arc<SExpr>> = Vec::new();
        let mut i: usize = 0;
        while i < self.children.len()
            invariant
                i <= self.children@.len(),
                children@.len() == i,
                forall|k: int| 0 <= k < i ==> #[trigger] children@[k] == self.children@[k],
            decreases self.children.len() - i,
        {
            children.push(self.children[i].clone());
            i += 1;
        }
        let r = SExpr { plan: self.plan.clone(), children };
        assert(r@.children =~= self@.children);
        r
    }

    /// The input at a position.
    pub fn child(&self, position: usize) -> (r: Result<&SExpr, ErrorCode>)
        ensures
            match r {
                Ok(child) => position < self@.children.len() && child@
                    == self@.children[position as int],
                Err(e) => position >= self@.children.len() && e == ErrorCode::InvalidChild(position),
            },
    {
        if position < self.children.len() {
            Ok(&*self.children[position])
        } else {
            Err(ErrorCode::InvalidChild(position))
        }
    }

    /// Whether the plan has the shape of a pattern.
    pub fn match_pattern(&self, pattern: &PatternPlan) -> (r: bool)
        ensures
            r == matches_pattern(self@, *pattern),
        decreases pattern,
    {
        if self.plan.rel_op() != pattern.plan_type {
            return false;
        }
        if self.children.len() != pattern.children.len() {
            return false;
        }
        let r = match_patterns(&self.children, &pattern.children);
        proof {
            assert forall|i: int| 0 <= i < self.children@.len() implies #[trigger] self@.children[i]
                == s_expr_view(*self.children@[i]) by {}
            if r {
                assert forall|i: int| 0 <= i < pattern.children@.len() implies matches_pattern(
                    #[trigger] self@.children[i],
                    pattern.children@[i],
                ) by {
                    assert(matches_pattern(s_expr_view(*self.children@[i]), pattern.children@[i]));
                }
            } else {
                let i = choose|i: int|
                    0 <= i < pattern.children@.len() && !matches_pattern(
                        s_expr_view(*(#[trigger] self.children@[i])),
                        pattern.children@[i],
                    );
                assert(!matches_pattern(self@.children[i], pattern.children@[i]));
            }
        }
        r
    }
}

fn match_patterns(children: &Vec<Arc<SExpr>>, patterns: &Vec<PatternPlan>) -> (r: bool)
    requires
        children@.len() == patterns@.len(),
    ensures
        r == forall|i: int|
            0 <= i < patterns@.len() ==> matches_pattern(
                s_expr_view(*(#[trigger] children@[i])),
                patterns@[i],
            ),
    decreases patterns,
{
    let mut i: usize = 0;
    while i < patterns.len()
        invariant
            i <= patterns@.len(),
            children@.len() == patterns@.len(),
            forall|k: int|
                0 <= k < i ==> matches_pattern(
                    s_expr_view(*(#[trigger] children@[k])),
                    patterns@[k],
                ),
        decreases patterns.len() - i,
    {
        assert(decreases_to!(patterns@ => patterns@[i as int]));
        if !children[i].match_pattern(&patterns[i]) {
            assert(!matches_pattern(s_expr_view(*children@[i as int]), patterns@[i as int]));
            return false;
        }
        i += 1;
    }
    true
}

} // verus!
