//! What becomes of the references in a scalar, and what names and comparisons stand for.

use vstd::prelude::*;

use crate::column_map::lookup;
use crate::error::ErrorCode;
use crate::join_predicate::{comparison_named, func_name, reversed};
use crate::metadata::ColumnEntryView;
use crate::model::{flatten_scalar, flatten_scalars, Outcome};
use crate::names::{
    ascii_fold, decimal, eq_ignoring_ascii_case, is_count_name, subquery_column_name,
};
use crate::scalar::{
    used_by_all, used_columns, AggregateFunctionView, BoundColumnRefView, CastExprView,
    ColumnBindingView, ComparisonOp, FunctionCallView, ScalarView,
};
use crate::types::{DataType, Visibility};

verus! {

/// The references of a scalar to columns, from left to right.
pub open spec fn references(scalar: ScalarView) -> Seq<BoundColumnRefView>
    decreases scalar,
{
    match scalar {
        ScalarView::BoundColumnRef(column) => seq![column],
        ScalarView::AggregateFunction(agg) => all_references(agg.args),
        ScalarView::FunctionCall(func) => all_references(func.arguments),
        ScalarView::CastExpr(cast) => references(*cast.argument),
        _ => Seq::empty(),
    }
}

/// The references of scalars to columns, from left to right.
pub open spec fn all_references(scalars: Seq<ScalarView>) -> Seq<BoundColumnRefView>
    decreases scalars,
{
    if scalars.len() == 0 {
        Seq::empty()
    } else {
        all_references(scalars.drop_last()) + references(scalars.last())
    }
}

/// A reference that says nothing.
pub open spec fn blank() -> BoundColumnRefView {
    BoundColumnRefView {
        span: None,
        column: ColumnBindingView {
            database_name: None,
            table_name: None,
            table_index: None,
            column_name: Seq::empty(),
            index: 0,
            data_type: DataType::Boolean,
            visibility: Visibility::Visible,
        },
    }
}

/// A scalar with a blank for each reference to a column: what it does with the columns.
pub open spec fn shape(scalar: ScalarView) -> ScalarView
    decreases scalar,
{
    match scalar {
        ScalarView::BoundColumnRef(_) => ScalarView::BoundColumnRef(blank()),
        ScalarView::AggregateFunction(agg) => ScalarView::AggregateFunction(
            AggregateFunctionView { args: shapes(agg.args), ..agg },
        ),
        ScalarView::FunctionCall(func) => ScalarView::FunctionCall(
            FunctionCallView { arguments: shapes(func.arguments), ..func },
        ),
        ScalarView::CastExpr(cast) => ScalarView::CastExpr(
            CastExprView { argument: Box::new(shape(*cast.argument)), ..cast },
        ),
        _ => scalar,
    }
}

/// Each scalar with a blank for each reference to a column.
pub open spec fn shapes(scalars: Seq<ScalarView>) -> Seq<ScalarView>
    decreases scalars,
{
    if scalars.len() == 0 {
        Seq::empty()
    } else {
        shapes(scalars.drop_last()).push(shape(scalars.last()))
    }
}

/// Whether `after` is what a reference becomes: the same if the column is not correlated, and
/// otherwise a reference to its derived column, under the name and of the type which that column
/// has, at the same place of the query text and as visible as before.
pub open spec fn stands_for(
    columns: Seq<ColumnEntryView>,
    derived: Seq<(usize, usize)>,
    correlated: Seq<usize>,
    before: BoundColumnRefView,
    after: BoundColumnRefView,
) -> bool {
    let index = after.column.index;
    if correlated.contains(before.column.index) {
        &&& lookup(derived, before.column.index) == Some(index)
        &&& index < columns.len()
        &&& after.span == before.span
        &&& after.column.visibility == before.column.visibility
        &&& after.column.column_name == columns[index as int].name
        &&& after.column.data_type == columns[index as int].data_type
        &&& after.column.database_name is None
        &&& after.column.table_name is None
        &&& after.column.table_index is None
    } else {
        after == before
    }
}

/// Whether `after` does the same as `before` with the columns that it refers to, and refers at each
/// place to the column that stands for the one which `before` has there.
pub open spec fn rewritten(
    columns: Seq<ColumnEntryView>,
    derived: Seq<(usize, usize)>,
    correlated: Seq<usize>,
    before: ScalarView,
    after: ScalarView,
) -> bool {
    &&& shape(after) == shape(before)
    &&& references(after).len() == references(before).len()
    &&& forall|i: int|
        0 <= i < references(after).len() ==> stands_for(
            columns,
            derived,
            correlated,
            references(before)[i],
            #[trigger] references(after)[i],
        )
}

/// A flat scalar does with its columns what the scalar did, and at each place refers to the column
/// that stands for the one which the scalar had there.
pub proof fn law_flatten_scalar_rewrites(
    columns: Seq<ColumnEntryView>,
    derived: Seq<(usize, usize)>,
    correlated: Seq<usize>,
    scalar: ScalarView,
)
    ensures
        flatten_scalar(columns, derived, correlated, scalar) matches Outcome::Done(flat)
            ==> rewritten(columns, derived, correlated, scalar, flat),
    decreases scalar,
{
    match scalar {
        ScalarView::AggregateFunction(agg) => {
            law_flatten_scalars_rewrites(columns, derived, correlated, agg.args);
        },
        ScalarView::FunctionCall(func) => {
            law_flatten_scalars_rewrites(columns, derived, correlated, func.arguments);
        },
        ScalarView::CastExpr(cast) => {
            law_flatten_scalar_rewrites(columns, derived, correlated, *cast.argument);
        },
        _ => {},
    }
}

/// As [`law_flatten_scalar_rewrites`], for scalars together: there are as many as before, each at
/// its place.
pub proof fn law_flatten_scalars_rewrites(
    columns: Seq<ColumnEntryView>,
    derived: Seq<(usize, usize)>,
    correlated: Seq<usize>,
    scalars: Seq<ScalarView>,
)
    ensures
        flatten_scalars(columns, derived, correlated, scalars) matches Outcome::Done(flat) ==> {
            &&& flat.len() == scalars.len()
            &&& shapes(flat) == shapes(scalars)
            &&& all_references(flat).len() == all_references(scalars).len()
            &&& forall|i: int|
                0 <= i < all_references(flat).len() ==> stands_for(
                    columns,
                    derived,
                    correlated,
                    all_references(scalars)[i],
                    #[trigger] all_references(flat)[i],
                )
            &&& forall|i: int|
                0 <= i < flat.len() ==> rewritten(
                    columns,
                    derived,
                    correlated,
                    scalars[i],
                    #[trigger] flat[i],
                )
        },
    decreases scalars,
{
    if scalars.len() > 0 && flatten_scalars(columns, derived, correlated, scalars) is Done {
        let front = scalars.drop_last();
        let flat = flatten_scalars(columns, derived, correlated, scalars)->Done_0;
        let flat_front = flatten_scalars(columns, derived, correlated, front)->Done_0;
        law_flatten_scalars_rewrites(columns, derived, correlated, front);
        law_flatten_scalar_rewrites(columns, derived, correlated, scalars.last());
        assert(flat.drop_last() =~= flat_front);
        assert forall|i: int| 0 <= i < all_references(flat).len() implies stands_for(
            columns,
            derived,
            correlated,
            all_references(scalars)[i],
            #[trigger] all_references(flat)[i],
        ) by {
            let n = all_references(flat_front).len();
            if i < n {
                assert(all_references(flat)[i] == all_references(flat_front)[i]);
            } else {
                assert(all_references(flat)[i] == references(flat.last())[i - n]);
            }
        }
        assert forall|i: int| 0 <= i < flat.len() implies rewritten(
            columns,
            derived,
            correlated,
            scalars[i],
            #[trigger] flat[i],
        ) by {
            if i < front.len() {
                assert(flat[i] == flat_front[i]);
            }
        }
    }
}

/// The columns that the subqueries and the carried scalars inside a scalar refer to.
pub open spec fn carried(scalar: ScalarView) -> Set<usize>
    decreases scalar,
{
    match scalar {
        ScalarView::AggregateFunction(agg) => all_carried(agg.args),
        ScalarView::FunctionCall(func) => all_carried(func.arguments),
        ScalarView::CastExpr(cast) => carried(*cast.argument),
        ScalarView::SubqueryExpr(subquery) => subquery.outer_columns@,
        ScalarView::Opaque(opaque) => opaque.used_columns,
        _ => Set::empty(),
    }
}

/// The columns that the subqueries and the carried scalars inside scalars refer to.
pub open spec fn all_carried(scalars: Seq<ScalarView>) -> Set<usize>
    decreases scalars,
{
    if scalars.len() == 0 {
        Set::empty()
    } else {
        all_carried(scalars.drop_last()).union(carried(scalars.last()))
    }
}

/// Whether one of the references is to a column.
pub open spec fn refers(refs: Seq<BoundColumnRefView>, column: usize) -> bool {
    exists|i: int| 0 <= i < refs.len() && (#[trigger] refs[i]).column.index == column
}

proof fn lemma_refers_add(
    first: Seq<BoundColumnRefView>,
    second: Seq<BoundColumnRefView>,
    column: usize,
)
    ensures
        refers(first + second, column) <==> refers(first, column) || refers(second, column),
{
    let both = first + second;
    if refers(first, column) {
        let i = choose|i: int| 0 <= i < first.len() && (#[trigger] first[i]).column.index == column;
        assert(both[i].column.index == column);
    }
    if refers(second, column) {
        let i = choose|i: int|
            0 <= i < second.len() && (#[trigger] second[i]).column.index == column;
        assert(both[first.len() + i].column.index == column);
    }
    if refers(both, column) {
        let i = choose|i: int| 0 <= i < both.len() && (#[trigger] both[i]).column.index == column;
        if i < first.len() {
            assert(first[i].column.index == column);
        } else {
            assert(second[i - first.len()].column.index == column);
        }
    }
}

/// A scalar uses the columns that one of its references is to, and those that a subquery or a
/// carried scalar in it refers to.
pub proof fn law_used_columns_are_referred_to(scalar: ScalarView, column: usize)
    ensures
        used_columns(scalar).contains(column) <==> refers(references(scalar), column) || carried(
            scalar,
        ).contains(column),
    decreases scalar,
{
    match scalar {
        ScalarView::BoundColumnRef(reference) => {
            assert(references(scalar)[0] == reference);
        },
        ScalarView::AggregateFunction(agg) => {
            lemma_used_by_all_are_referred_to(agg.args, column);
        },
        ScalarView::FunctionCall(func) => {
            lemma_used_by_all_are_referred_to(func.arguments, column);
        },
        ScalarView::CastExpr(cast) => {
            law_used_columns_are_referred_to(*cast.argument, column);
        },
        _ => {},
    }
}

proof fn lemma_used_by_all_are_referred_to(scalars: Seq<ScalarView>, column: usize)
    ensures
        used_by_all(scalars).contains(column) <==> refers(all_references(scalars), column)
            || all_carried(scalars).contains(column),
    decreases scalars,
{
    if scalars.len() > 0 {
        lemma_used_by_all_are_referred_to(scalars.drop_last(), column);
        law_used_columns_are_referred_to(scalars.last(), column);
        lemma_refers_add(
            all_references(scalars.drop_last()),
            references(scalars.last()),
            column,
        );
    }
}

/// Scalars use a column exactly if one of them does.
pub proof fn law_used_by_all_is_used_by_one(scalars: Seq<ScalarView>, column: usize)
    ensures
        used_by_all(scalars).contains(column) <==> exists|i: int|
            0 <= i < scalars.len() && used_columns(#[trigger] scalars[i]).contains(column),
    decreases scalars.len(),
{
    if scalars.len() > 0 {
        let front = scalars.drop_last();
        law_used_by_all_is_used_by_one(front, column);
        if used_by_all(front).contains(column) {
            let i = choose|i: int|
                0 <= i < front.len() && used_columns(#[trigger] front[i]).contains(column);
            assert(used_columns(scalars[i]).contains(column));
        }
        if used_columns(scalars.last()).contains(column) {
            assert(used_columns(scalars[scalars.len() - 1]).contains(column));
        }
        if exists|i: int|
            0 <= i < scalars.len() && used_columns(#[trigger] scalars[i]).contains(column) {
            let i = choose|i: int|
                0 <= i < scalars.len() && used_columns(#[trigger] scalars[i]).contains(column);
            if i < front.len() {
                assert(used_columns(front[i]).contains(column));
            }
        }
    }
}

/// Whether every part of a scalar is one that flattening has a rule for.
pub open spec fn has_rules(scalar: ScalarView) -> bool
    decreases scalar,
{
    match scalar {
        ScalarView::AggregateFunction(agg) => all_have_rules(agg.args),
        ScalarView::FunctionCall(func) => all_have_rules(func.arguments),
        ScalarView::CastExpr(cast) => has_rules(*cast.argument),
        ScalarView::SubqueryExpr(_) => false,
        ScalarView::Opaque(_) => false,
        _ => true,
    }
}

/// Whether every part of each scalar is one that flattening has a rule for.
pub open spec fn all_have_rules(scalars: Seq<ScalarView>) -> bool
    decreases scalars,
{
    scalars.len() == 0 || (all_have_rules(scalars.drop_last()) && has_rules(scalars.last()))
}

/// Flattening a scalar gives a scalar if every part has a rule and every correlated column that it
/// refers to has a derived column among the columns of the query. It fails in one way alone, and
/// only over a part without a rule.
pub proof fn law_flatten_scalar_succeeds(
    columns: Seq<ColumnEntryView>,
    derived: Seq<(usize, usize)>,
    correlated: Seq<usize>,
    scalar: ScalarView,
)
    ensures
        flatten_scalar(columns, derived, correlated, scalar) is Done ==> has_rules(scalar),
        flatten_scalar(columns, derived, correlated, scalar) matches Outcome::Failed(e) ==> e
            == ErrorCode::InvalidScalar && !has_rules(scalar),
        flatten_scalar(columns, derived, correlated, scalar) is Undefined ==> exists|i: int|
            0 <= i < references(scalar).len() && lacks_derived(
                columns,
                derived,
                correlated,
                #[trigger] references(scalar)[i],
            ),
    decreases scalar,
{
    match scalar {
        ScalarView::BoundColumnRef(reference) => {
            assert(references(scalar)[0] == reference);
        },
        ScalarView::AggregateFunction(agg) => {
            lemma_flatten_scalars_succeed(columns, derived, correlated, agg.args);
        },
        ScalarView::FunctionCall(func) => {
            lemma_flatten_scalars_succeed(columns, derived, correlated, func.arguments);
        },
        ScalarView::CastExpr(cast) => {
            law_flatten_scalar_succeeds(columns, derived, correlated, *cast.argument);
        },
        _ => {},
    }
}

/// Whether a reference is to a correlated column without a derived column among the columns.
pub open spec fn lacks_derived(
    columns: Seq<ColumnEntryView>,
    derived: Seq<(usize, usize)>,
    correlated: Seq<usize>,
    reference: BoundColumnRefView,
) -> bool {
    &&& correlated.contains(reference.column.index)
    &&& lookup(derived, reference.column.index) is None || lookup(
        derived,
        reference.column.index,
    )->0 >= columns.len()
}

proof fn lemma_flatten_scalars_succeed(
    columns: Seq<ColumnEntryView>,
    derived: Seq<(usize, usize)>,
    correlated: Seq<usize>,
    scalars: Seq<ScalarView>,
)
    ensures
        flatten_scalars(columns, derived, correlated, scalars) is Done ==> all_have_rules(scalars),
        flatten_scalars(columns, derived, correlated, scalars) matches Outcome::Failed(e) ==> e
            == ErrorCode::InvalidScalar && !all_have_rules(scalars),
        flatten_scalars(columns, derived, correlated, scalars) is Undefined ==> exists|i: int|
            0 <= i < all_references(scalars).len() && lacks_derived(
                columns,
                derived,
                correlated,
                #[trigger] all_references(scalars)[i],
            ),
    decreases scalars,
{
    if scalars.len() > 0 {
        let front = scalars.drop_last();
        lemma_flatten_scalars_succeed(columns, derived, correlated, front);
        law_flatten_scalar_succeeds(columns, derived, correlated, scalars.last());
        let n = all_references(front).len();
        match flatten_scalars(columns, derived, correlated, front) {
            Outcome::Undefined => {
                let i = choose|i: int|
                    0 <= i < n && lacks_derived(
                        columns,
                        derived,
                        correlated,
                        #[trigger] all_references(front)[i],
                    );
                assert(all_references(scalars)[i] == all_references(front)[i]);
            },
            Outcome::Done(_) => {
                if flatten_scalar(columns, derived, correlated, scalars.last()) is Undefined {
                    let i = choose|i: int|
                        0 <= i < references(scalars.last()).len() && lacks_derived(
                            columns,
                            derived,
                            correlated,
                            #[trigger] references(scalars.last())[i],
                        );
                    assert(all_references(scalars)[n + i] == references(scalars.last())[i]);
                }
            },
            _ => {},
        }
    }
}

/// Whether a comparison holds of two numbers.
pub open spec fn compares(op: ComparisonOp, left: int, right: int) -> bool {
    match op {
        ComparisonOp::Equal => left == right,
        ComparisonOp::NotEqual => left != right,
        ComparisonOp::GT => left > right,
        ComparisonOp::LT => left < right,
        ComparisonOp::GTE => left >= right,
        ComparisonOp::LTE => left <= right,
    }
}

/// A reversed comparison says of two numbers what the comparison says of them exchanged.
pub proof fn law_reversed_exchanges_sides(op: ComparisonOp, left: int, right: int)
    ensures
        compares(reversed(op), left, right) == compares(op, right, left),
{
}

/// Whether a function of this name is the comparison.
pub open spec fn spells(name: Seq<char>, op: ComparisonOp) -> bool {
    match op {
        ComparisonOp::Equal => name == seq!['e', 'q'],
        ComparisonOp::NotEqual => name == seq!['n', 'o', 't', 'e', 'q'],
        ComparisonOp::GT => name == seq!['g', 't'],
        ComparisonOp::LT => name == seq!['l', 't'],
        ComparisonOp::GTE => name == seq!['g', 't', 'e'],
        ComparisonOp::LTE => name == seq!['l', 't', 'e'],
    }
}

/// A comparison is written as the function that spells it, and no other function stands for it.
pub proof fn law_comparison_names(name: Seq<char>, op: ComparisonOp)
    ensures
        spells(func_name(op), op),
        comparison_named(name) == Some(op) <==> spells(name, op),
{
    reveal_strlit("eq");
    reveal_strlit("noteq");
    reveal_strlit("gt");
    reveal_strlit("lt");
    reveal_strlit("gte");
    reveal_strlit("lte");
    assert("eq"@ =~= seq!['e', 'q']);
    assert("noteq"@ =~= seq!['n', 'o', 't', 'e', 'q']);
    assert("gt"@ =~= seq!['g', 't']);
    assert("lt"@ =~= seq!['l', 't']);
    assert("gte"@ =~= seq!['g', 't', 'e']);
    assert("lte"@ =~= seq!['l', 't', 'e']);
    assert(seq!['e', 'q'][0] == 'e');
    assert(seq!['g', 't'][0] == 'g');
    assert(seq!['l', 't'][0] == 'l');
    assert(seq!['g', 't', 'e'][0] == 'g');
    assert(seq!['l', 't', 'e'][0] == 'l');
    assert(seq!['n', 'o', 't', 'e', 'q'].len() == 5);
    assert(seq!['g', 't', 'e'].len() == 3);
    assert(seq!['l', 't', 'e'].len() == 3);
    assert(seq!['g', 't'].len() == 2);
    assert(seq!['l', 't'].len() == 2);
    assert(seq!['e', 'q'].len() == 2);
}

/// The number that a text of digits stands for.
pub open spec fn number_of(text: Seq<char>) -> int
    decreases text.len(),
{
    if text.len() == 0 {
        0
    } else {
        number_of(text.drop_last()) * 10 + (text.last() as int - '0' as int)
    }
}

/// Decimal notation reads back as the number. It has digits alone, and no zero in front of others.
pub proof fn law_decimal_reads_back(n: nat)
    ensures
        number_of(decimal(n)) == n,
        decimal(n).len() > 0,
        decimal(n).len() > 1 ==> decimal(n)[0] != '0',
        forall|i: int| 0 <= i < decimal(n).len() ==> '0' <= #[trigger] decimal(n)[i] <= '9',
        n > 0 ==> decimal(n)[0] != '0',
    decreases n,
{
    if n < 10 {
        assert(decimal(n).drop_last() =~= Seq::<char>::empty());
        assert(number_of(decimal(n).drop_last()) == 0);
    } else {
        law_decimal_reads_back(n / 10);
        assert(decimal(n).drop_last() =~= decimal(n / 10));
    }
}

/// The name of a subquery's column is made of the word and the column's number.
pub proof fn law_subquery_column_name(index: usize)
    ensures
        subquery_column_name(index).len() > 9,
        subquery_column_name(index).take(9) == seq!['s', 'u', 'b', 'q', 'u', 'e', 'r', 'y', '_'],
        number_of(subquery_column_name(index).skip(9)) == index,
{
    reveal_strlit("subquery_");
    law_decimal_reads_back(index as nat);
    assert("subquery_"@ =~= seq!['s', 'u', 'b', 'q', 'u', 'e', 'r', 'y', '_']);
    assert(subquery_column_name(index).take(9) =~= "subquery_"@);
    assert(subquery_column_name(index).skip(9) =~= decimal(index as nat));
}

/// A function counts exactly if its name is `count` in letters of either case, or
/// `count_distinct`.
pub proof fn law_count_names(name: Seq<char>)
    ensures
        is_count_name(name) <==> {
            ||| name.len() == 5 && (name[0] == 'c' || name[0] == 'C') && (name[1] == 'o' || name[1]
                == 'O') && (name[2] == 'u' || name[2] == 'U') && (name[3] == 'n' || name[3] == 'N')
                && (name[4] == 't' || name[4] == 'T')
            ||| name == seq!['c', 'o', 'u', 'n', 't', '_', 'd', 'i', 's', 't', 'i', 'n', 'c', 't']
        },
{
    reveal_strlit("count");
    reveal_strlit("count_distinct");
    assert("count_distinct"@ =~= seq![
        'c', 'o', 'u', 'n', 't', '_', 'd', 'i', 's', 't', 'i', 'n', 'c', 't',
    ]);
    assert("count"@ =~= seq!['c', 'o', 'u', 'n', 't']);
    let count = "count"@;
    if name.len() == 5 {
        lemma_fold(name[0], 'c', 'C');
        lemma_fold(name[1], 'o', 'O');
        lemma_fold(name[2], 'u', 'U');
        lemma_fold(name[3], 'n', 'N');
        lemma_fold(name[4], 't', 'T');
        let folded = ascii_fold(name[0]) == ascii_fold(count[0]) && ascii_fold(name[1])
            == ascii_fold(count[1]) && ascii_fold(name[2]) == ascii_fold(count[2]) && ascii_fold(
            name[3],
        ) == ascii_fold(count[3]) && ascii_fold(name[4]) == ascii_fold(count[4]);
        assert(eq_ignoring_ascii_case(name, count) == folded);
    }
}

proof fn lemma_fold(c: char, lower: char, upper: char)
    requires
        'a' <= lower <= 'z',
        lower as int == upper as int + 32,
    ensures
        ascii_fold(c) == ascii_fold(lower) <==> c == lower || c == upper,
{
}

} // verus!
