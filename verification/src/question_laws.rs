//! What the answers to questions about percentages have to satisfy.
use crate::addition::sum;
use crate::decimal::decimal_difference;
use crate::decimal::decimal_product;
use crate::decimal::decimal_quotient;
use crate::decimal::decimal_sum;
use crate::decimal::DecimalView;
use crate::division::quotient;
use crate::exact::adds_exactly;
use crate::exact::divides_evenly;
use crate::exact::law_difference_is_exact;
use crate::exact::law_number_of_integer;
use crate::exact::law_number_of_negated;
use crate::exact::law_number_of_zero;
use crate::exact::law_product_is_exact;
use crate::exact::law_quotient_is_exact;
use crate::exact::law_sum_is_exact;
use crate::exact::multiplies_exactly;
use crate::exact::number;
use crate::exact::subtracts_exactly;
use crate::multiplication::product;
use crate::percentage::base_from_result_rate;
use crate::percentage::rate_from_result_base;
use crate::percentage::what_perc_off;
use crate::percentage::what_perc_on;
use crate::percentage::xperc_off_what;
use crate::percentage::xperc_on_what;
use crate::scalar_laws::answer_times;
use crate::scalar_laws::as_number;
use crate::scalar_laws::decimal_in;
use crate::scalar_laws::decimal_in_answer;
use crate::scalar_laws::has_no_token;
use crate::scalar_laws::integer;
use crate::scalar_laws::law_percentages_take_shares;
use crate::scalar_laws::number_in;
use crate::scalar_laws::shares_exactly;
use crate::subtraction::difference;
use crate::value::ResultView;
use vstd::prelude::*;

verus! {

/// A hundred times the decimal.
pub open spec fn hundredfold(y: DecimalView) -> DecimalView {
    decimal_product(y, DecimalView::integer(100))->Some_0
}

/// `p` and a hundred together.
pub open spec fn above_hundred(p: DecimalView) -> DecimalView {
    decimal_sum(p, DecimalView::integer(100))->Some_0
}

/// What `p` leaves of a hundred.
pub open spec fn below_hundred(p: DecimalView) -> DecimalView {
    decimal_difference(DecimalView::integer(100), p)->Some_0
}

proof fn lemma_hundredfold(y: DecimalView)
    requires
        multiplies_exactly(y, DecimalView::integer(100)),
    ensures
        decimal_product(y, DecimalView::integer(100)) == Some(hundredfold(y)),
        number(hundredfold(y)) == number(y) * 100 as real,
{
    law_number_of_integer(100);
    law_product_is_exact(y, DecimalView::integer(100));
}

/// `y is p% on what`: the answer `x` is the number of which `y` is `p` percent more, so that
/// `x * (100 + p) = y * 100`. Of minus a hundred percent there is no answer.
pub proof fn law_on_what(l: ResultView, r: ResultView)
    ensures
        xperc_on_what(l, r) is Some ==> l.typ is Number && r.typ is Percentage,
        xperc_on_what(l, r) matches Some(x) ==> x.typ is Number && has_no_token(x),
        l.typ is Number && r.typ is Percentage && multiplies_exactly(
            decimal_in(l.typ),
            DecimalView::integer(100),
        ) && adds_exactly(decimal_in(r.typ), DecimalView::integer(100)) && divides_evenly(
            hundredfold(decimal_in(l.typ)),
            above_hundred(decimal_in(r.typ)),
        ) ==> (xperc_on_what(l, r) matches Some(x) && number_in(x) * (100 as real + number_in(r))
            == number_in(l) * 100 as real),
        adds_exactly(decimal_in(r.typ), DecimalView::integer(100)) && number_in(r) == -(
        100 as real) ==> xperc_on_what(l, r) is None,
{
    let (y, p) = (decimal_in(l.typ), decimal_in(r.typ));
    law_number_of_integer(100);
    if adds_exactly(p, DecimalView::integer(100)) {
        law_sum_is_exact(p, DecimalView::integer(100));
        law_number_of_zero(above_hundred(p));
        if multiplies_exactly(y, DecimalView::integer(100)) {
            lemma_hundredfold(y);
            if divides_evenly(hundredfold(y), above_hundred(p)) {
                law_quotient_is_exact(hundredfold(y), above_hundred(p));
            }
        }
    }
}

/// `y is p% off what`: the answer `x` is the number of which `y` is `p` percent less, so that
/// `x * (100 - p) = y * 100`. Of a hundred percent there is no answer.
pub proof fn law_off_what(l: ResultView, r: ResultView)
    ensures
        xperc_off_what(l, r) is Some ==> l.typ is Number && r.typ is Percentage,
        xperc_off_what(l, r) matches Some(x) ==> x.typ is Number && has_no_token(x),
        l.typ is Number && r.typ is Percentage && multiplies_exactly(
            decimal_in(l.typ),
            DecimalView::integer(100),
        ) && subtracts_exactly(DecimalView::integer(100), decimal_in(r.typ)) && divides_evenly(
            hundredfold(decimal_in(l.typ)),
            below_hundred(decimal_in(r.typ)),
        ) ==> (xperc_off_what(l, r) matches Some(x) && number_in(x) * (100 as real - number_in(r))
            == number_in(l) * 100 as real),
        subtracts_exactly(DecimalView::integer(100), decimal_in(r.typ)) && number_in(r)
            == 100 as real ==> xperc_off_what(l, r) is None,
{
    let (y, p) = (decimal_in(l.typ), decimal_in(r.typ));
    law_number_of_integer(100);
    if subtracts_exactly(DecimalView::integer(100), p) {
        law_difference_is_exact(DecimalView::integer(100), p);
        law_number_of_zero(below_hundred(p));
        if multiplies_exactly(y, DecimalView::integer(100)) {
            lemma_hundredfold(y);
            if divides_evenly(hundredfold(y), below_hundred(p)) {
                law_quotient_is_exact(hundredfold(y), below_hundred(p));
            }
        }
    }
}

/// How many percent of `x` is `y`, with the decimal places that it needs.
pub open spec fn full_rate(y: DecimalView, x: DecimalView) -> DecimalView {
    decimal_quotient(hundredfold(y), x)->Some_0
}

/// Finding the percentage that `y` is of `x`, and how far it is from a hundred, takes no
/// rounding.
pub open spec fn compares_exactly(y: DecimalView, x: DecimalView) -> bool {
    &&& multiplies_exactly(y, DecimalView::integer(100))
    &&& divides_evenly(hundredfold(y), x)
    &&& subtracts_exactly(full_rate(y, x), DecimalView::integer(100))
}

proof fn lemma_comparison(y: DecimalView, x: DecimalView)
    requires
        compares_exactly(y, x),
    ensures
        decimal_product(y, DecimalView::integer(100)) == Some(hundredfold(y)),
        decimal_quotient(hundredfold(y), x) == Some(full_rate(y, x)),
        decimal_difference(full_rate(y, x), DecimalView::integer(100)) matches Some(p) && number(x)
            * (100 as real + number(p)) == number(y) * 100 as real,
{
    law_number_of_integer(100);
    lemma_hundredfold(y);
    law_quotient_is_exact(hundredfold(y), x);
    law_difference_is_exact(full_rate(y, x), DecimalView::integer(100));
    let (a, b, c) = (number(x), number(full_rate(y, x)), number(hundredfold(y)));
    assert(a * (100 as real + (b - 100 as real)) == c) by (nonlinear_arith)
        requires
            b * a == c,
    ;
}

/// `y is what % on x`: `y` is the answer more than `x`, so that `x * (100 + p) = y * 100`.
pub proof fn law_what_percent_on(l: ResultView, r: ResultView)
    ensures
        what_perc_on(l, r) is Some ==> l.typ is Number && r.typ is Number,
        what_perc_on(l, r) matches Some(p) ==> p.typ is Percentage && has_no_token(p),
        l.typ is Number && r.typ is Number && compares_exactly(
            decimal_in(l.typ),
            decimal_in(r.typ),
        ) ==> (what_perc_on(l, r) matches Some(p) && number_in(r) * (100 as real + number_in(p))
            == number_in(l) * 100 as real),
        decimal_in(r.typ).is_zero() ==> what_perc_on(l, r) is None,
{
    let (y, x) = (decimal_in(l.typ), decimal_in(r.typ));
    if compares_exactly(y, x) {
        lemma_comparison(y, x);
    }
}

/// `y is what % off x`: `y` is the answer less than `x`, so that `x * (100 - p) = y * 100`.
pub proof fn law_what_percent_off(l: ResultView, r: ResultView)
    ensures
        what_perc_off(l, r) is Some ==> l.typ is Number && r.typ is Number,
        what_perc_off(l, r) matches Some(p) ==> p.typ is Percentage && has_no_token(p),
        l.typ is Number && r.typ is Number && compares_exactly(
            decimal_in(l.typ),
            decimal_in(r.typ),
        ) ==> (what_perc_off(l, r) matches Some(p) && number_in(r) * (100 as real - number_in(p))
            == number_in(l) * 100 as real),
        decimal_in(r.typ).is_zero() ==> what_perc_off(l, r) is None,
{
    let (y, x) = (decimal_in(l.typ), decimal_in(r.typ));
    if compares_exactly(y, x) {
        lemma_comparison(y, x);
        let p = decimal_difference(full_rate(y, x), DecimalView::integer(100))->Some_0;
        law_number_of_negated(p);
    }
}

/// `y / x` and a hundred times that take no rounding.
pub open spec fn relates_exactly(y: DecimalView, x: DecimalView) -> bool {
    divides_evenly(y, x) && multiplies_exactly(
        decimal_quotient(y, x)->Some_0,
        DecimalView::integer(100),
    )
}

proof fn lemma_relation(y: DecimalView, x: DecimalView)
    requires
        relates_exactly(y, x),
    ensures
        decimal_quotient(y, x) matches Some(q) && decimal_product(
            q,
            DecimalView::integer(100),
        ) == Some(hundredfold(q)) && number(hundredfold(q)) * number(x) == number(y) * 100 as real,
{
    law_quotient_is_exact(y, x);
    let q = decimal_quotient(y, x)->Some_0;
    lemma_hundredfold(q);
    let (a, b, c) = (number(q), number(x), number(y));
    assert((a * 100 as real) * b == c * 100 as real) by (nonlinear_arith)
        requires
            a * b == c,
    ;
}

/// `y is what percent of x`: the answer `p` satisfies `p * x = y * 100`, and `p` percent of
/// `x` is `y` again.
pub proof fn law_what_percent_of(l: ResultView, r: ResultView)
    ensures
        rate_from_result_base(l, r) is Some ==> l.typ is Number && r.typ is Number,
        rate_from_result_base(l, r) matches Some(p) ==> p.typ is Percentage && has_no_token(p),
        l.typ is Number && r.typ is Number && relates_exactly(decimal_in(l.typ), decimal_in(r.typ))
            ==> (rate_from_result_base(l, r) matches Some(p) && number_in(p) * number_in(r)
            == number_in(l) * 100 as real),
        l.typ is Number && r.typ is Number && relates_exactly(decimal_in(l.typ), decimal_in(r.typ))
            && shares_exactly(
            decimal_in(r.typ),
            decimal_in(rate_from_result_base(l, r)->Some_0.typ),
        ) ==> (product(rate_from_result_base(l, r)->Some_0, r) matches Some(y) && number_in(y)
            == number_in(l)),
        decimal_in(r.typ).is_zero() ==> rate_from_result_base(l, r) is None,
{
    let (y, x) = (decimal_in(l.typ), decimal_in(r.typ));
    if l.typ is Number && r.typ is Number && relates_exactly(y, x) {
        lemma_relation(y, x);
        let p = rate_from_result_base(l, r)->Some_0;
        law_percentages_take_shares(r, p);
        let (a, b, c) = (number_in(p), number_in(r), number_in(l));
        assert(b * a == c * 100 as real) by (nonlinear_arith)
            requires
                a * b == c * 100 as real,
        ;
    }
}

/// `y is p% of what`: the answer `x` satisfies `x * p = y * 100`, and `p` percent of it is `y`
/// again.
pub proof fn law_percent_of_what(l: ResultView, r: ResultView)
    ensures
        base_from_result_rate(l, r) is Some ==> l.typ is Number && r.typ is Percentage,
        base_from_result_rate(l, r) matches Some(x) ==> x.typ is Number && has_no_token(x),
        l.typ is Number && r.typ is Percentage && relates_exactly(
            decimal_in(l.typ),
            decimal_in(r.typ),
        ) ==> (base_from_result_rate(l, r) matches Some(x) && number_in(x) * number_in(r)
            == number_in(l) * 100 as real),
        l.typ is Number && r.typ is Percentage && relates_exactly(
            decimal_in(l.typ),
            decimal_in(r.typ),
        ) && shares_exactly(
            decimal_in(base_from_result_rate(l, r)->Some_0.typ),
            decimal_in(r.typ),
        ) ==> (product(base_from_result_rate(l, r)->Some_0, r) matches Some(y) && number_in(y)
            == number_in(l)),
        decimal_in(r.typ).is_zero() ==> base_from_result_rate(l, r) is None,
{
    let (y, p) = (decimal_in(l.typ), decimal_in(r.typ));
    if l.typ is Number && r.typ is Percentage && relates_exactly(y, p) {
        lemma_relation(y, p);
        law_percentages_take_shares(base_from_result_rate(l, r)->Some_0, r);
    }
}

/// The quotient of an answer and another one.
pub open spec fn answer_over(x: Option<ResultView>, y: Option<ResultView>) -> Option<ResultView> {
    match (x, y) {
        (Some(x), Some(y)) => quotient(x, y),
        _ => None,
    }
}

/// An answer less a hundred.
pub open spec fn answer_less_hundred(x: Option<ResultView>) -> Option<ResultView> {
    match x {
        Some(x) => difference(x, integer(100)),
        None => None,
    }
}

/// The answers to the questions round as the calculations do that they stand for: `y * 100 /
/// (p + 100)`, `y * 100 / (100 - p)`, `y * 100 / x - 100` and `y / x * 100`.
pub proof fn law_questions_stand_for_calculations(l: ResultView, r: ResultView)
    ensures
        l.typ is Number && r.typ is Percentage ==> {
            &&& decimal_in_answer(xperc_on_what(l, r)) == decimal_in_answer(
                answer_over(product(l, integer(100)), sum(as_number(r), integer(100))),
            )
            &&& decimal_in_answer(xperc_off_what(l, r)) == decimal_in_answer(
                answer_over(product(l, integer(100)), difference(integer(100), as_number(r))),
            )
            &&& decimal_in_answer(base_from_result_rate(l, r)) == decimal_in_answer(
                answer_times(quotient(l, as_number(r)), integer(100)),
            )
        },
        l.typ is Number && r.typ is Number ==> {
            let rate = answer_less_hundred(
                answer_over(product(l, integer(100)), Some(r)),
            );
            &&& decimal_in_answer(what_perc_on(l, r)) == decimal_in_answer(rate)
            &&& match what_perc_off(l, r) {
                Some(p) => rate matches Some(q) && number_in(p) == -number_in(q),
                None => rate is None,
            }
            &&& decimal_in_answer(rate_from_result_base(l, r)) == decimal_in_answer(
                answer_times(quotient(l, r), integer(100)),
            )
        },
{
    if l.typ is Number && r.typ is Number {
        if let Some(q) = answer_less_hundred(answer_over(product(l, integer(100)), Some(r))) {
            law_number_of_negated(decimal_in(q.typ));
        }
    }
}

} // verus!
