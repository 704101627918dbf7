//! What the four operations make of numbers, percentages and quantities, told by the numbers
//! that these stand for.
use crate::addition::sum;
use crate::decimal::decimal_difference;
use crate::decimal::decimal_product;
use crate::decimal::decimal_quotient;
use crate::decimal::decimal_sum;
use crate::decimal::DecimalView;
use crate::division::quotient;
use crate::exact::adds_exactly;
use crate::exact::divides_evenly;
use crate::exact::law_difference_is_exact;
use crate::exact::law_number_of_integer;
use crate::exact::law_number_of_negated;
use crate::exact::law_product_is_exact;
use crate::exact::law_quotient_is_exact;
use crate::exact::law_sum_is_exact;
use crate::exact::multiplies_exactly;
use crate::exact::number;
use crate::exact::subtracts_exactly;
use crate::multiplication::product;
use crate::operation::negated;
use crate::percentage::as_percentage;
use crate::subtraction::difference;
use crate::units::UnitView;
use crate::value::ResultView;
use crate::value::ValueView;
use vstd::prelude::*;

verus! {

/// The decimal in a number, a percentage or a quantity; that of a quantity counts base units.
pub open spec fn decimal_in(v: ValueView) -> DecimalView {
    match v {
        ValueView::Number(n) => n,
        ValueView::Percentage(n) => n,
        ValueView::Quantity(n, _) => n,
        _ => DecimalView::integer(0),
    }
}

/// The number that a value stands for.
pub open spec fn number_in(r: ResultView) -> real {
    number(decimal_in(r.typ))
}

/// The decimal in an answer.
pub open spec fn decimal_in_answer(r: Option<ResultView>) -> Option<DecimalView> {
    match r {
        Some(r) => Some(decimal_in(r.typ)),
        None => None,
    }
}

/// Two values of the same kind; quantities with the very same unit.
pub open spec fn is_like(v: ValueView, w: ValueView) -> bool {
    match (v, w) {
        (ValueView::Number(_), ValueView::Number(_)) => true,
        (ValueView::Percentage(_), ValueView::Percentage(_)) => true,
        (ValueView::Quantity(_, u), ValueView::Quantity(_, x)) => u == x,
        _ => false,
    }
}

/// The value stands for no token in particular.
pub open spec fn has_no_token(r: ResultView) -> bool {
    r.index == 0 && r.index2 is None
}

/// Two numbers, two percentages, or two quantities that measure the same thing.
pub open spec fn can_be_added(l: ResultView, r: ResultView) -> bool {
    match (l.typ, r.typ) {
        (ValueView::Number(_), ValueView::Number(_)) => true,
        (ValueView::Percentage(_), ValueView::Percentage(_)) => true,
        (ValueView::Quantity(_, u), ValueView::Quantity(_, v)) => u.dimensions == v.dimensions,
        _ => false,
    }
}

/// A percentage that is taken of a number or a quantity.
pub open spec fn is_share(l: ResultView, r: ResultView) -> bool {
    (l.typ is Number || l.typ is Quantity) && r.typ is Percentage
}

/// Values that can be added are of the kind of the left one when they are added, with its
/// unit, and stand for the sum. Quantities and percentages are added as numbers are.
pub proof fn law_sums_add(l: ResultView, r: ResultView)
    requires
        can_be_added(l, r),
    ensures
        sum(l, r) matches Some(s) ==> is_like(s.typ, l.typ) && has_no_token(s),
        decimal_in_answer(sum(l, r)) == decimal_sum(decimal_in(l.typ), decimal_in(r.typ)),
        adds_exactly(decimal_in(l.typ), decimal_in(r.typ)) ==> (sum(l, r) matches Some(s)
            && number_in(s) == number_in(l) + number_in(r)),
{
    if adds_exactly(decimal_in(l.typ), decimal_in(r.typ)) {
        law_sum_is_exact(decimal_in(l.typ), decimal_in(r.typ));
    }
}

/// The difference of values that can be added is of the kind of the left one, with its unit,
/// and stands for the difference.
pub proof fn law_differences_subtract(l: ResultView, r: ResultView)
    requires
        can_be_added(l, r),
    ensures
        difference(l, r) matches Some(s) ==> is_like(s.typ, l.typ) && has_no_token(s),
        decimal_in_answer(difference(l, r)) == decimal_difference(
            decimal_in(l.typ),
            decimal_in(r.typ),
        ),
        subtracts_exactly(decimal_in(l.typ), decimal_in(r.typ)) ==> (difference(
            l,
            r,
        ) matches Some(s) && number_in(s) == number_in(l) - number_in(r)),
{
    if subtracts_exactly(decimal_in(l.typ), decimal_in(r.typ)) {
        law_difference_is_exact(decimal_in(l.typ), decimal_in(r.typ));
    }
}

/// There is no other sum, and no other difference, of values that are no matrices.
pub proof fn law_no_other_sums(l: ResultView, r: ResultView)
    requires
        !can_be_added(l, r),
        !is_share(l, r),
        !(l.typ is Matrix && r.typ is Matrix),
    ensures
        sum(l, r) is None,
        difference(l, r) is None,
{
}

/// A hundredth of the decimal.
pub open spec fn hundredth_of(a: DecimalView) -> DecimalView {
    decimal_quotient(a, DecimalView::integer(100))->Some_0
}

/// `p` percent of `a` is not rounded.
pub open spec fn shares_exactly(a: DecimalView, p: DecimalView) -> bool {
    divides_evenly(a, DecimalView::integer(100)) && multiplies_exactly(hundredth_of(a), p)
}

/// A value with its unit, or only a number where the dimensions of the unit are all zero.
pub open spec fn is_measured_in(v: ValueView, u: UnitView) -> bool {
    if forall|i: int| 0 <= i < u.dimensions.len() ==> #[trigger] u.dimensions[i] == 0 {
        v is Number
    } else {
        v matches ValueView::Quantity(_, w) && w == u
    }
}

/// The value is a number, or has the unit of the quantity `q`.
pub open spec fn is_measured_like(v: ValueView, q: ValueView) -> bool {
    match q {
        ValueView::Quantity(_, u) => is_measured_in(v, u),
        _ => v is Number,
    }
}

/// A percentage of a number or a quantity, in either order, is `a * p / 100`, measured as the
/// number or the quantity is.
pub proof fn law_percentages_take_shares(l: ResultView, r: ResultView)
    requires
        is_share(l, r),
    ensures
        product(l, r) matches Some(s) ==> is_measured_like(s.typ, l.typ) && has_no_token(s),
        product(r, l) == product(l, r),
        shares_exactly(decimal_in(l.typ), decimal_in(r.typ)) ==> (product(l, r) matches Some(s)
            && number_in(s) * 100 as real == number_in(l) * number_in(r)),
{
    let (a, p) = (decimal_in(l.typ), decimal_in(r.typ));
    if shares_exactly(a, p) {
        law_number_of_integer(100);
        law_quotient_is_exact(a, DecimalView::integer(100));
        law_product_is_exact(hundredth_of(a), p);
        let (x, h, y) = (number(a), number(hundredth_of(a)), number(p));
        assert(h * y * 100 as real == x * y) by (nonlinear_arith)
            requires
                h * 100 as real == x,
        ;
    }
}

/// `a + p%` is `a` and the share together: `a * (100 + p) / 100`, with the unit of `a`.
pub proof fn law_percentages_increase(l: ResultView, r: ResultView)
    requires
        is_share(l, r),
    ensures
        sum(l, r) matches Some(s) ==> is_like(s.typ, l.typ) && has_no_token(s),
        match decimal_in_answer(product(l, r)) {
            Some(part) => decimal_in_answer(sum(l, r)) == decimal_sum(decimal_in(l.typ), part),
            None => sum(l, r) is None,
        },
        shares_exactly(decimal_in(l.typ), decimal_in(r.typ)) && adds_exactly(
            decimal_in(l.typ),
            decimal_in_answer(product(l, r))->Some_0,
        ) ==> (sum(l, r) matches Some(s) && number_in(s) * 100 as real == number_in(l) * (100 as real
            + number_in(r))),
{
    law_percentages_take_shares(l, r);
    let (a, p) = (decimal_in(l.typ), decimal_in(r.typ));
    if shares_exactly(a, p) {
        let part = decimal_in_answer(product(l, r))->Some_0;
        if adds_exactly(a, part) {
            law_sum_is_exact(a, part);
            let (x, h, y) = (number(a), number(part), number(p));
            assert((x + h) * 100 as real == x * (100 as real + y)) by (nonlinear_arith)
                requires
                    h * 100 as real == x * y,
            ;
        }
    }
}

/// `a - p%` is `a` without the share: `a * (100 - p) / 100`, with the unit of `a`.
pub proof fn law_percentages_decrease(l: ResultView, r: ResultView)
    requires
        is_share(l, r),
    ensures
        difference(l, r) matches Some(s) ==> is_like(s.typ, l.typ) && has_no_token(s),
        match decimal_in_answer(product(l, r)) {
            Some(part) => decimal_in_answer(difference(l, r)) == decimal_difference(
                decimal_in(l.typ),
                part,
            ),
            None => difference(l, r) is None,
        },
        shares_exactly(decimal_in(l.typ), decimal_in(r.typ)) && subtracts_exactly(
            decimal_in(l.typ),
            decimal_in_answer(product(l, r))->Some_0,
        ) ==> (difference(l, r) matches Some(s) && number_in(s) * 100 as real == number_in(l) * (
        100 as real - number_in(r))),
{
    law_percentages_take_shares(l, r);
    let (a, p) = (decimal_in(l.typ), decimal_in(r.typ));
    if shares_exactly(a, p) {
        let part = decimal_in_answer(product(l, r))->Some_0;
        if subtracts_exactly(a, part) {
            law_difference_is_exact(a, part);
            let (x, h, y) = (number(a), number(part), number(p));
            assert((x - h) * 100 as real == x * (100 as real - y)) by (nonlinear_arith)
                requires
                    h * 100 as real == x * y,
            ;
        }
    }
}

/// The product of two percentages is the percentage `p * q / 10000`.
pub proof fn law_percentages_multiply(l: ResultView, r: ResultView)
    requires
        l.typ is Percentage,
        r.typ is Percentage,
    ensures
        product(l, r) matches Some(s) ==> s.typ is Percentage && has_no_token(s),
        divides_evenly(decimal_in(l.typ), DecimalView::integer(100)) && divides_evenly(
            decimal_in(r.typ),
            DecimalView::integer(100),
        ) && multiplies_exactly(hundredth_of(decimal_in(l.typ)), hundredth_of(decimal_in(r.typ)))
            ==> (product(l, r) matches Some(s) && number_in(s) * 10_000 as real == number_in(l)
            * number_in(r)),
{
    let (a, b) = (decimal_in(l.typ), decimal_in(r.typ));
    let hundred = DecimalView::integer(100);
    if divides_evenly(a, hundred) && divides_evenly(b, hundred) && multiplies_exactly(
        hundredth_of(a),
        hundredth_of(b),
    ) {
        law_number_of_integer(100);
        law_quotient_is_exact(a, hundred);
        law_quotient_is_exact(b, hundred);
        law_product_is_exact(hundredth_of(a), hundredth_of(b));
        let (x, y, h, k) = (number(a), number(b), number(hundredth_of(a)), number(hundredth_of(b)));
        assert(h * k * 10_000 as real == x * y) by (nonlinear_arith)
            requires
                h * 100 as real == x,
                k * 100 as real == y,
        ;
    }
}

/// The factors of both units, one after the other, and the sums of their dimensions.
pub open spec fn is_product_of_units(w: UnitView, u: UnitView, v: UnitView) -> bool {
    &&& w.factors == u.factors + v.factors
    &&& w.dimensions.len() == u.dimensions.len()
    &&& forall|i: int|
        0 <= i < w.dimensions.len() ==> #[trigger] w.dimensions[i] == u.dimensions[i]
            + v.dimensions[i]
}

/// The unit with every power, of its factors and of its dimensions, multiplied by `p`.
pub open spec fn is_power_of_unit(w: UnitView, u: UnitView, p: int) -> bool {
    &&& w.factors.len() == u.factors.len()
    &&& forall|i: int|
        0 <= i < w.factors.len() ==> {
            &&& (#[trigger] w.factors[i]).id == u.factors[i].id
            &&& w.factors[i].value == u.factors[i].value
            &&& w.factors[i].prefix == u.factors[i].prefix
            &&& w.factors[i].power == u.factors[i].power * p
        }
    &&& w.dimensions.len() == u.dimensions.len()
    &&& forall|i: int|
        0 <= i < w.dimensions.len() ==> #[trigger] w.dimensions[i] == u.dimensions[i] * p
}

/// Every power in the unit is a signed 64 bit integer.
pub open spec fn powers_fit(w: UnitView) -> bool {
    &&& forall|i: int|
        0 <= i < w.factors.len() ==> i64::MIN <= (#[trigger] w.factors[i]).power <= i64::MAX
    &&& forall|i: int|
        0 <= i < w.dimensions.len() ==> i64::MIN <= #[trigger] w.dimensions[i] <= i64::MAX
}

/// Units multiply, and are raised to a power, by their factors and dimensions, exactly where
/// the powers fit.
pub proof fn law_units_combine(u: UnitView, v: UnitView, p: int)
    ensures
        u.product(v) matches Some(w) ==> is_product_of_units(w, u, v) && powers_fit(w),
        u.power(p) matches Some(w) ==> is_power_of_unit(w, u, p) && powers_fit(w),
        u.quotient(v) matches Some(w) ==> (v.power(-1) matches Some(inverse)
            && is_product_of_units(w, u, inverse)),
        forall|w: UnitView| #[trigger]
            is_product_of_units(w, u, v) && powers_fit(w) ==> u.product(v) is Some,
        forall|w: UnitView| #[trigger]
            is_power_of_unit(w, u, p) && powers_fit(w) ==> u.power(p) is Some,
{
    assert forall|w: UnitView| #[trigger]
        is_product_of_units(w, u, v) && powers_fit(w) implies u.product(v) is Some by {
        assert(w =~= u.joined(v));
    }
    assert forall|w: UnitView| #[trigger]
        is_power_of_unit(w, u, p) && powers_fit(w) implies u.power(p) is Some by {
        let x = u.raised(p);
        assert(w.factors =~= x.factors) by {
            assert forall|i: int| 0 <= i < w.factors.len() implies w.factors[i] == x.factors[i] by {
                assert(w.factors[i].id == x.factors[i].id);
            }
        }
        assert(w =~= x);
    }
}

/// A number or a quantity.
pub open spec fn is_plain_amount(r: ResultView) -> bool {
    r.typ is Number || r.typ is Quantity
}

/// The product of numbers and quantities stands for the product. It has the unit of the one
/// quantity or the product of both units; a product whose dimensions cancel out is a number.
pub proof fn law_products_multiply(l: ResultView, r: ResultView)
    requires
        is_plain_amount(l),
        is_plain_amount(r),
    ensures
        product(l, r) matches Some(s) ==> has_no_token(s) && decimal_product(
            decimal_in(l.typ),
            decimal_in(r.typ),
        ) == Some(decimal_in(s.typ)) && match (l.typ, r.typ) {
            (ValueView::Quantity(_, u), ValueView::Quantity(_, v)) => exists|w: UnitView|
                #[trigger] is_product_of_units(w, u, v) && is_measured_in(s.typ, w),
            (_, ValueView::Quantity(_, v)) => is_measured_in(s.typ, v),
            _ => is_measured_like(s.typ, l.typ),
        },
        product(l, r) is Some <==> decimal_product(decimal_in(l.typ), decimal_in(r.typ)) is Some
            && (l.typ matches ValueView::Quantity(_, u) ==> (r.typ matches ValueView::Quantity(_, v)
            ==> u.factors.len() + v.factors.len() < 8 && u.product(v) is Some)),
        product(l, r) is Some && multiplies_exactly(decimal_in(l.typ), decimal_in(r.typ)) ==> (
        product(l, r) matches Some(s) && number_in(s) == number_in(l) * number_in(r)),
{
    let (a, b) = (decimal_in(l.typ), decimal_in(r.typ));
    if multiplies_exactly(a, b) {
        law_product_is_exact(a, b);
    }
    if let (ValueView::Quantity(_, u), ValueView::Quantity(_, v)) = (l.typ, r.typ) {
        law_units_combine(u, v, 1);
        if let Some(w) = u.product(v) {
            assert(is_product_of_units(w, u, v));
        }
    }
}

/// A unit alone has no product.
pub proof fn law_units_have_no_product(l: ResultView, r: ResultView)
    requires
        l.typ is Unit || r.typ is Unit,
    ensures
        product(l, r) is None,
{
}

/// A number or a quantity divided by a number has the unit of the left one, and the quotient
/// of quantities the quotient of the units; where the dimensions cancel out it is a number.
/// Times the divisor, it is the dividend, both in base units.
pub proof fn law_quotients_divide(l: ResultView, r: ResultView)
    requires
        is_plain_amount(l),
        r.typ is Number || l.typ is Quantity && r.typ is Quantity,
    ensures
        quotient(l, r) matches Some(s) ==> has_no_token(s) && decimal_quotient(
            decimal_in(l.typ),
            decimal_in(r.typ),
        ) == Some(decimal_in(s.typ)) && match (l.typ, r.typ) {
            (ValueView::Quantity(_, u), ValueView::Quantity(_, v)) => v.power(
                -1,
            ) matches Some(inverse) && exists|w: UnitView| #[trigger]
                is_product_of_units(w, u, inverse) && is_measured_in(s.typ, w),
            _ => is_measured_like(s.typ, l.typ),
        },
        quotient(l, r) is Some <==> decimal_quotient(decimal_in(l.typ), decimal_in(r.typ)) is Some
            && (l.typ matches ValueView::Quantity(_, u) ==> (r.typ matches ValueView::Quantity(_, v)
            ==> u.factors.len() + v.factors.len() < 8 && u.quotient(v) is Some)),
        quotient(l, r) is Some && divides_evenly(decimal_in(l.typ), decimal_in(r.typ)) ==> (quotient(
            l,
            r,
        ) matches Some(s) && number_in(s) * number_in(r) == number_in(l)),
{
    let (a, b) = (decimal_in(l.typ), decimal_in(r.typ));
    if divides_evenly(a, b) {
        law_quotient_is_exact(a, b);
    }
    if let (ValueView::Quantity(_, u), ValueView::Quantity(_, v)) = (l.typ, r.typ) {
        law_units_combine(u, v, 1);
        if let Some(w) = u.quotient(v) {
            assert(is_product_of_units(w, u, v.power(-1)->Some_0));
        }
    }
}

/// A number divided by a percentage is the percentage `a * 100 / q`.
pub proof fn law_quotients_by_percentages(l: ResultView, r: ResultView)
    requires
        l.typ is Number,
        r.typ is Percentage,
    ensures
        quotient(l, r) matches Some(s) ==> s.typ is Percentage && has_no_token(s),
        divides_evenly(decimal_in(l.typ), decimal_in(r.typ)) && multiplies_exactly(
            decimal_quotient(decimal_in(l.typ), decimal_in(r.typ))->Some_0,
            DecimalView::integer(100),
        ) ==> (quotient(l, r) matches Some(s) && number_in(s) * number_in(r) == number_in(l)
            * 100 as real),
{
    let (a, b) = (decimal_in(l.typ), decimal_in(r.typ));
    if divides_evenly(a, b) {
        law_quotient_is_exact(a, b);
        law_number_of_integer(100);
        let q = decimal_quotient(a, b)->Some_0;
        if multiplies_exactly(q, DecimalView::integer(100)) {
            law_product_is_exact(q, DecimalView::integer(100));
            let (x, y, z) = (number(a), number(b), number(q));
            assert((z * 100 as real) * y == x * 100 as real) by (nonlinear_arith)
                requires
                    z * y == x,
            ;
        }
    }
}

/// A percentage is divided by units only, a quantity by no percentage, and nothing by a
/// matrix; a unit is not divided.
pub proof fn law_no_other_quotients(l: ResultView, r: ResultView)
    requires
        l.typ is Percentage && r.typ !is Unit || l.typ is Quantity && r.typ is Percentage
            || l.typ is Unit || r.typ is Matrix || l.typ is Matrix && r.typ is Unit,
    ensures
        quotient(l, r) is None,
{
}

/// An integer as a value.
pub open spec fn integer(n: int) -> ResultView {
    ResultView { typ: ValueView::Number(DecimalView::integer(n)), index: 0, index2: None }
}

/// The plain number in a value.
pub open spec fn as_number(r: ResultView) -> ResultView {
    ResultView { typ: ValueView::Number(decimal_in(r.typ)), index: 0, index2: None }
}

/// The product of an answer with a value.
pub open spec fn answer_times(x: Option<ResultView>, y: ResultView) -> Option<ResultView> {
    match x {
        Some(x) => product(x, y),
        None => None,
    }
}

/// Calculations with percentages round as the calculations do that they stand for: `a * p%`
/// is `a / 100 * p`, `p% * q%` is `(p / 100) * (q / 100)`, and `a / q%` is `a / q * 100`.
pub proof fn law_percentages_stand_for_calculations(l: ResultView, r: ResultView)
    requires
        r.typ is Percentage,
    ensures
        is_plain_amount(l) ==> decimal_in_answer(product(l, r)) == decimal_in_answer(
            answer_times(quotient(as_number(l), integer(100)), as_number(r)),
        ),
        l.typ is Percentage ==> decimal_in_answer(product(l, r)) == (match quotient(
            as_number(r),
            integer(100),
        ) {
            Some(q) => decimal_in_answer(
                answer_times(quotient(as_number(l), integer(100)), q),
            ),
            None => None,
        }),
        l.typ is Number ==> decimal_in_answer(quotient(l, r)) == decimal_in_answer(
            answer_times(quotient(l, as_number(r)), integer(100)),
        ),
{
}

/// Negating a number, a percentage or a quantity negates the number that it stands for, and
/// keeps its unit and its first token; nothing else is negated.
pub proof fn law_negation_negates(r: ResultView)
    ensures
        negated(r) is Some <==> r.typ is Number || r.typ is Percentage || r.typ is Quantity,
        negated(r) matches Some(s) ==> is_like(s.typ, r.typ) && number_in(s) == -number_in(r)
            && s.index == r.index && s.index2 is None,
{
    law_number_of_negated(decimal_in(r.typ));
}

/// A percentage stands for the number before the percent sign, and for both tokens; only
/// numbers become percentages.
pub proof fn law_percent_sign_keeps_the_number(r: ResultView, op_index: usize)
    ensures
        as_percentage(r, op_index) is Some <==> r.typ is Number,
        as_percentage(r, op_index) matches Some(s) ==> s.typ is Percentage && number_in(s)
            == number_in(r) && s.index == r.index && s.index2 == Some(op_index),
{
}

} // verus!
