//! Laws of the operations on values.
use crate::addition::cell_sums;
use crate::addition::sum;
use crate::arithmetic::all_some;
use crate::decimal::decimal_quotient;
use crate::decimal::same_number;
use crate::decimal::sum_is_exact;
use crate::decimal::DecimalView;
use crate::decimal_laws::law_decimals_commute;
use crate::decimal_laws::law_difference_is_sum_with_negated;
use crate::decimal_laws::law_number_divided_by_itself;
use crate::decimal_laws::law_subtraction_undoes_addition;
use crate::division::cell_quotients;
use crate::division::quotient;
use crate::multiplication::product;
use crate::multiplication::scaled;
use crate::multiplication::scaled_cells;
use crate::operation::binary;
use crate::operation::converted;
use crate::operation::converted_cells;
use crate::operation::negated;
use crate::percentage::hundred_view;
use crate::percentage_laws::law_decrease_is_negative_increase;
use crate::subtraction::cell_differences;
use crate::subtraction::difference;
use crate::token::OperatorTokenType;
use crate::unit_laws::law_quotient_of_equal_dimensions;
use crate::units::fits;
use crate::units::UnitView;
use crate::units::MAX_UNIT_COUNT;
use crate::value::amount;
use crate::value::plain;
use crate::value::ResultView;
use crate::value::ValueView;
use vstd::prelude::*;

verus! {

/// Negating a value twice gives back the value, for the first of its tokens.
pub proof fn law_negating_twice(r: ResultView)
    requires
        negated(r) is Some,
    ensures
        negated(negated(r)->Some_0) == Some(ResultView { index2: None, ..r }),
{
}

/// A quantity converts to exactly the units of its dimensions, without changing its size, and
/// back.
pub proof fn law_conversion_and_back(num: DecimalView, u: UnitView, v: UnitView)
    ensures
        ({
            let quantity = plain(ValueView::Quantity(num, u));
            let there = converted(quantity, plain(ValueView::Unit(v)));
            &&& there is Some <==> u.dimensions == v.dimensions
            &&& there is Some ==> there->Some_0.typ == ValueView::Quantity(num, v)
            &&& there is Some ==> converted(there->Some_0, plain(ValueView::Unit(u))) == Some(
                quantity,
            )
        }),
{
}

/// Quantities of different dimensions have no sum and no difference; where there is one, it
/// has the unit of the left operand.
pub proof fn law_quantities_add_within_dimensions(
    a: DecimalView,
    u: UnitView,
    b: DecimalView,
    v: UnitView,
)
    ensures
        ({
            let l = plain(ValueView::Quantity(a, u));
            let r = plain(ValueView::Quantity(b, v));
            &&& u.dimensions != v.dimensions ==> sum(l, r) is None && difference(l, r) is None
            &&& sum(l, r) matches Some(s) ==> s.typ matches ValueView::Quantity(_, w) && w == u
            &&& difference(l, r) matches Some(d) ==> d.typ matches ValueView::Quantity(_, w) && w
                == u
        }),
{
}

/// No operator with two operands gives a unit without a number.
pub proof fn law_results_are_no_bare_units(op: OperatorTokenType, l: ResultView, r: ResultView)
    requires
        binary(op, l, r) is Some,
    ensures
        binary(op, l, r)->Some_0.typ !is Unit,
{
}

/// A product or a quotient whose dimensions cancel out is a number.
pub proof fn law_cancelled_units_leave_numbers(l: ResultView, r: ResultView)
    ensures
        product(l, r) matches Some(p) ==> (p.typ matches ValueView::Quantity(_, w)
            ==> !w.is_unitless()),
        quotient(l, r) matches Some(q) ==> (q.typ matches ValueView::Quantity(_, w)
            ==> !w.is_unitless()),
{
}

/// A quantity divided by itself is the number one.
pub proof fn law_quantity_divided_by_itself(a: DecimalView, u: UnitView)
    requires
        u.valid(),
        !a.is_zero(),
        u.factors.len() + u.factors.len() < MAX_UNIT_COUNT,
        u.quotient(u) is Some,
    ensures
        quotient(plain(ValueView::Quantity(a, u)), plain(ValueView::Quantity(a, u))) == Some(
            plain(ValueView::Number(DecimalView::integer(1))),
        ),
{
    law_number_divided_by_itself(a);
    law_quotient_of_equal_dimensions(u, u);
}

proof fn lemma_zero_of_a_unit(u: UnitView, zero: DecimalView, n: nat)
    requires
        zero.is_zero(),
    ensures
        u.from_base(zero, n) matches Some(r) ==> r.is_zero(),
    decreases n,
{
    if n > 0 {
        lemma_zero_of_a_unit(u, zero, (n - 1) as nat);
    }
}

/// Nothing is divided by zero, be it a number, a percentage or a quantity; of matrices, none
/// with a cell that is not itself a matrix.
pub proof fn law_nothing_is_divided_by_zero(l: ResultView, r: ResultView)
    requires
        amount(r.typ) matches Some(n) && n.is_zero(),
        l.typ matches ValueView::Matrix(m) ==> exists|i: int|
            0 <= i < m.cells.len() && (#[trigger] m.cells[i]).typ !is Matrix,
    ensures
        quotient(l, r) is None,
    decreases l,
{
    match l.typ {
        ValueView::Matrix(m) => {
            let i = choose|i: int|
                0 <= i < m.cells.len() && (#[trigger] m.cells[i]).typ !is Matrix;
            law_nothing_is_divided_by_zero(m.cells[i], r);
            assert(cell_quotients(m, r)[i] is None);
        },
        ValueView::Number(_) => {
            if let ValueView::Quantity(n, u) = r.typ {
                lemma_zero_of_a_unit(u, n, u.factors.len());
            }
        },
        _ => {},
    }
}

/// Subtraction undoes an addition that was exact, for numbers, for percentages and for
/// quantities of the same unit.
pub proof fn law_subtraction_undoes_addition_of_values(l: ResultView, r: ResultView)
    requires
        amount(l.typ) matches Some(a) && amount(r.typ) matches Some(b) && a.valid() && b.valid()
            && sum_is_exact(a, b),
        l.typ is Number && r.typ is Number || l.typ is Percentage && r.typ is Percentage || (
        l.typ matches ValueView::Quantity(_, u) && r.typ matches ValueView::Quantity(_, v)
            && u.dimensions == v.dimensions),
    ensures
        sum(l, r) matches Some(s) && difference(s, r) matches Some(d) && same_number(
            amount(d.typ)->Some_0,
            amount(l.typ)->Some_0,
        ) && (d.typ matches ValueView::Quantity(_, w) ==> w == l.typ->Quantity_1),
{
    law_subtraction_undoes_addition(amount(l.typ)->Some_0, amount(r.typ)->Some_0);
}

/// Two values are equal: the same numbers, units of the same dimensions, and the same for the
/// cells of matrices.
pub open spec fn same_result(x: ResultView, y: ResultView) -> bool
    decreases x,
{
    &&& x.index == y.index
    &&& x.index2 == y.index2
    &&& match (x.typ, y.typ) {
        (ValueView::Number(a), ValueView::Number(b)) => same_number(a, b),
        (ValueView::Percentage(a), ValueView::Percentage(b)) => same_number(a, b),
        (ValueView::Unit(u), ValueView::Unit(v)) => u.dimensions == v.dimensions,
        (ValueView::Quantity(a, u), ValueView::Quantity(b, v)) => same_number(a, b)
            && u.dimensions == v.dimensions,
        (ValueView::Matrix(a), ValueView::Matrix(b)) => {
            &&& a.rows == b.rows
            &&& a.cols == b.cols
            &&& a.cells.len() == b.cells.len()
            &&& forall|i: int|
                0 <= i < a.cells.len() ==> same_result(#[trigger] a.cells[i], b.cells[i])
        },
        _ => false,
    }
}

/// Two answers are equal, or there is none of either.
pub open spec fn same_answer(x: Option<ResultView>, y: Option<ResultView>) -> bool {
    match (x, y) {
        (Some(x), Some(y)) => same_result(x, y),
        (None, None) => true,
        _ => false,
    }
}

/// A product does not depend on the order of its factors. Left out are matrices multiplied
/// with each other, a matrix with a percentage, which has a product in one order only, and
/// quantities with each other, of which [`law_products_of_quantities_commute`] speaks.
pub proof fn law_products_commute(l: ResultView, r: ResultView)
    requires
        !(l.typ is Matrix && r.typ is Matrix),
        !(l.typ is Matrix && r.typ is Percentage),
        !(l.typ is Percentage && r.typ is Matrix),
        !(l.typ is Quantity && r.typ is Quantity),
    ensures
        product(l, r) == product(r, l),
{
    if let (Some(a), Some(b)) = (amount(l.typ), amount(r.typ)) {
        law_decimals_commute(a, b);
        if l.typ is Percentage && r.typ is Percentage {
            if let (Some(p), Some(q)) = (
                decimal_quotient(a, hundred_view()),
                decimal_quotient(b, hundred_view()),
            ) {
                law_decimals_commute(p, q);
            }
        }
    }
}

/// The product of two quantities does not depend on their order, but for the order in which
/// the units are written.
pub proof fn law_products_of_quantities_commute(l: ResultView, r: ResultView)
    requires
        l.typ matches ValueView::Quantity(_, u) && r.typ matches ValueView::Quantity(_, v)
            && u.valid() && v.valid(),
    ensures
        same_answer(product(l, r), product(r, l)),
{
    let (a, u) = (l.typ->Quantity_0, l.typ->Quantity_1);
    let (b, v) = (r.typ->Quantity_0, r.typ->Quantity_1);
    law_decimals_commute(a, b);
    let (x, y) = (u.joined(v), v.joined(u));
    assert(x.dimensions =~= y.dimensions);
    lemma_joined_factors(u, v);
    lemma_joined_factors(v, u);
}

/// Swapping two units swaps their factors.
proof fn lemma_joined_factors(u: UnitView, v: UnitView)
    requires
        u.valid(),
        v.valid(),
    ensures
        u.joined(v).fits() ==> v.joined(u).fits(),
{
    let (x, y) = (u.joined(v), v.joined(u));
    if x.fits() {
        assert forall|i: int| 0 <= i < y.factors.len() implies fits(
            (#[trigger] y.factors[i]).power,
        ) by {
            let j = if i < v.factors.len() {
                i + u.factors.len()
            } else {
                i - v.factors.len()
            };
            assert(y.factors[i] == x.factors[j]);
        }
        assert(x.dimensions =~= y.dimensions);
    }
}

/// All cells of a matrix are numbers.
pub open spec fn is_number_matrix(r: ResultView) -> bool {
    r.typ is Matrix && forall|i: int|
        0 <= i < cells(r).len() ==> (#[trigger] cells(r)[i]).typ is Number
}

/// A sum of numbers, of percentages or of matrices of numbers does not depend on the order of
/// its terms.
pub proof fn law_sums_commute(l: ResultView, r: ResultView)
    requires
        l.typ is Number && r.typ is Number || l.typ is Percentage && r.typ is Percentage || (
        is_number_matrix(l) && is_number_matrix(r)),
    ensures
        same_answer(sum(l, r), sum(r, l)),
{
    if let (ValueView::Matrix(a), ValueView::Matrix(b)) = (l.typ, r.typ) {
        if a.rows == b.rows && a.cols == b.cols {
            let (there, back) = (cell_sums(a, b), cell_sums(b, a));
            assert forall|i: int| 0 <= i < there.len() implies same_answer(
                #[trigger] there[i],
                back[i],
            ) by {
                assert(cells(l)[i].typ is Number && cells(r)[i].typ is Number);
                law_decimals_commute(a.cells[i].typ->Number_0, b.cells[i].typ->Number_0);
            }
            if all_some(there) is Some {
                assert forall|i: int| 0 <= i < back.len() implies (#[trigger] back[i]) is Some by {
                    assert(there[i] is Some);
                }
                let (x, y) = (sum(l, r)->Some_0, sum(r, l)->Some_0);
                assert forall|i: int| 0 <= i < cells(x).len() implies same_result(
                    #[trigger] cells(x)[i],
                    cells(y)[i],
                ) by {
                    assert(same_answer(there[i], back[i]));
                }
            } else {
                let i = choose|i: int| 0 <= i < there.len() && (#[trigger] there[i]) is None;
                assert(back[i] is None);
            }
        }
    } else {
        law_decimals_commute(amount(l.typ)->Some_0, amount(r.typ)->Some_0);
    }
}

/// Subtracting a number, a percentage or a quantity is adding the negated value, whether the
/// result is rounded or not; one has no answer exactly when the other has none.
pub proof fn law_subtracting_is_adding_the_negated(l: ResultView, r: ResultView)
    requires
        negated(r) is Some,
    ensures
        same_answer(difference(l, r), sum(l, negated(r)->Some_0)),
{
    if let (Some(a), Some(b)) = (amount(l.typ), amount(r.typ)) {
        law_difference_is_sum_with_negated(a, b);
        law_decrease_is_negative_increase(a, b);
    }
}

/// The number of rows and columns of a matrix.
pub open spec fn shape(r: ResultView) -> Option<(nat, nat)> {
    match r.typ {
        ValueView::Matrix(m) => Some((m.rows, m.cols)),
        _ => None,
    }
}

/// Matrices add and subtract only with matrices of the same shape, which the result has too.
pub proof fn law_shape_of_sums(l: ResultView, r: ResultView)
    requires
        l.typ is Matrix || r.typ is Matrix,
    ensures
        sum(l, r) matches Some(s) ==> shape(l) == shape(r) && shape(s) == shape(l),
        difference(l, r) matches Some(d) ==> shape(l) == shape(r) && shape(d) == shape(l),
{
}

/// A product of matrices has the rows of the left one and the columns of the right one, and
/// needs as many columns on the left as rows on the right.
pub proof fn law_shape_of_products(l: ResultView, r: ResultView)
    requires
        l.typ is Matrix,
        r.typ is Matrix,
    ensures
        product(l, r) matches Some(p) ==> shape(l)->Some_0.1 == shape(r)->Some_0.0 && shape(p)
            == Some((shape(l)->Some_0.0, shape(r)->Some_0.1)),
{
}

/// Multiplying a matrix by a scalar, dividing it or converting it keeps its shape.
pub proof fn law_shape_is_kept(m: ResultView, s: ResultView)
    requires
        m.typ is Matrix,
        s.typ !is Matrix,
    ensures
        product(m, s) matches Some(p) ==> shape(p) == shape(m),
        product(s, m) matches Some(p) ==> shape(p) == shape(m),
        quotient(m, s) matches Some(q) ==> shape(q) == shape(m),
        converted(m, s) matches Some(c) ==> shape(c) == shape(m),
{
}

/// The cells of a matrix.
pub open spec fn cells(r: ResultView) -> Seq<ResultView> {
    match r.typ {
        ValueView::Matrix(m) => m.cells,
        _ => Seq::empty(),
    }
}

/// Sums and differences of matrices are those of the cells at each place.
pub proof fn law_matrices_add_by_cells(l: ResultView, r: ResultView, i: int)
    requires
        0 <= i < cells(l).len(),
        i < cells(r).len(),
    ensures
        sum(l, r) matches Some(s) ==> sum(cells(l)[i], cells(r)[i]) == Some(cells(s)[i]),
        difference(l, r) matches Some(d) ==> difference(cells(l)[i], cells(r)[i]) == Some(
            cells(d)[i],
        ),
{
    let (a, b) = (l.typ->Matrix_0, r.typ->Matrix_0);
    if sum(l, r) is Some {
        assert(cell_sums(a, b)[i] is Some);
    }
    if difference(l, r) is Some {
        assert(cell_differences(a, b)[i] is Some);
    }
}

/// A matrix is multiplied by a scalar, divided and converted cell by cell.
pub proof fn law_scalars_act_by_cells(m: ResultView, s: ResultView, i: int)
    requires
        0 <= i < cells(m).len(),
        s.typ !is Matrix,
    ensures
        product(m, s) matches Some(p) ==> product(cells(m)[i], s) == Some(cells(p)[i]),
        quotient(m, s) matches Some(q) ==> quotient(cells(m)[i], s) == Some(cells(q)[i]),
        converted(m, s) matches Some(c) ==> converted(cells(m)[i], s) == Some(cells(c)[i]),
{
    let a = m.typ->Matrix_0;
    if product(m, s) is Some {
        assert(scaled_cells(a, s.typ)[i] is Some);
        assert(product(a.cells[i], s) == scaled(a.cells[i], s.typ));
    }
    if quotient(m, s) is Some {
        assert(cell_quotients(a, s)[i] is Some);
    }
    if converted(m, s) is Some {
        assert(converted_cells(a, s)[i] is Some);
    }
}

} // verus!
