//! Percentages.
use crate::decimal::decimal_difference;
use crate::decimal::decimal_product;
use crate::decimal::decimal_quotient;
use crate::decimal::decimal_sum;
use crate::decimal::not_rounded;
use crate::decimal::view_of;
use crate::decimal::Decimal;
use crate::decimal::DecimalView;
use crate::decimal_laws::lemma_not_rounded;
use crate::value::amount;
use crate::value::group_views;
use crate::value::plain;
use crate::value::view_of_result;
use crate::value::CalcResult;
use crate::value::CalcResultType;
use crate::value::ResultView;
use crate::value::ValueView;
use vstd::prelude::*;

verus! {

pub open spec fn hundred_view() -> DecimalView {
    DecimalView::integer(100)
}

pub(crate) fn hundred() -> (r: Decimal)
    ensures
        r@ == hundred_view(),
{
    broadcast use crate::decimal::lemma_decimal_of;

    Decimal::from(100u64)
}

/// `rate` percent of `base`: `base / 100 * rate`.
pub open spec fn share(rate: DecimalView, base: DecimalView) -> Option<DecimalView> {
    match decimal_quotient(base, hundred_view()) {
        Some(hundredth) => decimal_product(hundredth, rate),
        None => None,
    }
}

pub fn percentage_of(this: &Decimal, base: &Decimal) -> (r: Option<Decimal>)
    ensures
        view_of(r) == share(this@, base@),
        not_rounded(Some((base@, hundred_view()))),
{
    proof {
        lemma_not_rounded(Some((base@, hundred_view())));
    }
    base.checked_div(&hundred())?.checked_mul(this)
}

/// A value that a percentage is taken of is divided by a hundred.
pub open spec fn hundredth_division(v: ValueView) -> Option<(DecimalView, DecimalView)> {
    match amount(v) {
        Some(n) => Some((n, hundred_view())),
        None => None,
    }
}

/// The division in `41 is 17% on what`.
pub open spec fn on_division(l: ResultView, r: ResultView) -> Option<(DecimalView, DecimalView)> {
    match (l.typ, r.typ) {
        (ValueView::Number(y), ValueView::Percentage(p)) => match (
            decimal_product(y, hundred_view()),
            decimal_sum(p, hundred_view()),
        ) {
            (Some(scaled), Some(rate)) => Some((scaled, rate)),
            _ => None,
        },
        _ => None,
    }
}

/// The division in `41 is 17% off what`.
pub open spec fn off_division(l: ResultView, r: ResultView) -> Option<(DecimalView, DecimalView)> {
    match (l.typ, r.typ) {
        (ValueView::Number(y), ValueView::Percentage(p)) => match (
            decimal_product(y, hundred_view()),
            decimal_difference(hundred_view(), p),
        ) {
            (Some(scaled), Some(rate)) => Some((scaled, rate)),
            _ => None,
        },
        _ => None,
    }
}

/// The division in `41 is what % on 35` and in `35 is what % off 41`.
pub open spec fn rate_division(l: ResultView, r: ResultView) -> Option<(DecimalView, DecimalView)> {
    match (l.typ, r.typ) {
        (ValueView::Number(y), ValueView::Number(x)) => match decimal_product(y, hundred_view()) {
            Some(scaled) => Some((scaled, x)),
            None => None,
        },
        _ => None,
    }
}

/// The division of one number, percentage or quantity by another.
pub open spec fn plain_division(l: ValueView, r: ValueView) -> Option<(DecimalView, DecimalView)> {
    match (amount(l), amount(r)) {
        (Some(y), Some(x)) => Some((y, x)),
        _ => None,
    }
}

pub open spec fn number_of(n: Option<DecimalView>) -> Option<ResultView> {
    match n {
        Some(n) => Some(plain(ValueView::Number(n))),
        None => None,
    }
}

pub open spec fn percentage_value_of(n: Option<DecimalView>) -> Option<ResultView> {
    match n {
        Some(n) => Some(plain(ValueView::Percentage(n))),
        None => None,
    }
}

/// The base of which `y` is `p` percent more: `y * 100 / (p + 100)`.
pub open spec fn base_increased(y: DecimalView, p: DecimalView) -> Option<DecimalView> {
    match (decimal_product(y, hundred_view()), decimal_sum(p, hundred_view())) {
        (Some(scaled), Some(rate)) => decimal_quotient(scaled, rate),
        _ => None,
    }
}

/// The base of which `y` is `p` percent less: `y * 100 / (100 - p)`.
pub open spec fn base_decreased(y: DecimalView, p: DecimalView) -> Option<DecimalView> {
    match (decimal_product(y, hundred_view()), decimal_difference(hundred_view(), p)) {
        (Some(scaled), Some(rate)) => decimal_quotient(scaled, rate),
        _ => None,
    }
}

/// By how many percent `y` is more than `x`: `y * 100 / x - 100`.
pub open spec fn increase_rate(y: DecimalView, x: DecimalView) -> Option<DecimalView> {
    match decimal_product(y, hundred_view()) {
        Some(scaled) => match decimal_quotient(scaled, x) {
            Some(rate) => decimal_difference(rate, hundred_view()),
            None => None,
        },
        None => None,
    }
}

/// By how many percent `y` is less than `x`.
pub open spec fn decrease_rate(y: DecimalView, x: DecimalView) -> Option<DecimalView> {
    match increase_rate(y, x) {
        Some(rate) => Some(rate.neg()),
        None => None,
    }
}

/// `y / x * 100`: how many percent of `x` is `y`, and also of what `y` is `x` percent.
pub open spec fn hundredfold_quotient(y: DecimalView, x: DecimalView) -> Option<DecimalView> {
    match decimal_quotient(y, x) {
        Some(quotient) => decimal_product(quotient, hundred_view()),
        None => None,
    }
}

/// `5%`
pub open spec fn as_percentage(r: ResultView, op_index: usize) -> Option<ResultView> {
    match r.typ {
        ValueView::Number(n) => Some(
            ResultView {
                typ: ValueView::Percentage(n),
                index: r.index,
                index2: Some(op_index),
            },
        ),
        _ => None,
    }
}

pub fn percentage_operator(lhs: &CalcResult, op_token_index: usize) -> (r: Option<CalcResult>)
    ensures
        view_of_result(r) == as_percentage(lhs@, op_token_index),
{
    broadcast use group_views;

    match &lhs.typ {
        CalcResultType::Number(n) => {
            Some(
                CalcResult::new2(
                    CalcResultType::Percentage(*n),
                    lhs.index_into_tokens,
                    op_token_index,
                ),
            )
        },
        _ => None,
    }
}

/// `41 is 17% on what`
pub open spec fn xperc_on_what(l: ResultView, r: ResultView) -> Option<ResultView> {
    match (l.typ, r.typ) {
        (ValueView::Number(y), ValueView::Percentage(p)) => number_of(base_increased(y, p)),
        _ => None,
    }
}

pub fn perc_num_is_xperc_on_what(lhs: &CalcResult, rhs: &CalcResult) -> (r: Option<CalcResult>)
    ensures
        view_of_result(r) == xperc_on_what(lhs@, rhs@),
        not_rounded(on_division(lhs@, rhs@)),
{
    broadcast use group_views;

    proof {
        lemma_not_rounded(on_division(lhs@, rhs@));
    }
    match (&lhs.typ, &rhs.typ) {
        (CalcResultType::Number(y), CalcResultType::Percentage(p)) => {
            let x = y.checked_mul(&hundred())?.checked_div(&p.checked_add(&hundred())?)?;
            Some(CalcResult::new(CalcResultType::Number(x), 0))
        },
        _ => None,
    }
}

/// `41 is 17% off what`
pub open spec fn xperc_off_what(l: ResultView, r: ResultView) -> Option<ResultView> {
    match (l.typ, r.typ) {
        (ValueView::Number(y), ValueView::Percentage(p)) => number_of(base_decreased(y, p)),
        _ => None,
    }
}

pub fn perc_num_is_xperc_off_what(lhs: &CalcResult, rhs: &CalcResult) -> (r: Option<CalcResult>)
    ensures
        view_of_result(r) == xperc_off_what(lhs@, rhs@),
        not_rounded(off_division(lhs@, rhs@)),
{
    broadcast use group_views;

    proof {
        lemma_not_rounded(off_division(lhs@, rhs@));
    }
    match (&lhs.typ, &rhs.typ) {
        (CalcResultType::Number(y), CalcResultType::Percentage(p)) => {
            let x = y.checked_mul(&hundred())?.checked_div(&hundred().checked_sub(p)?)?;
            Some(CalcResult::new(CalcResultType::Number(x), 0))
        },
        _ => None,
    }
}

/// `41 is what % on 35`
pub open spec fn what_perc_on(l: ResultView, r: ResultView) -> Option<ResultView> {
    match (l.typ, r.typ) {
        (ValueView::Number(y), ValueView::Number(x)) => percentage_value_of(increase_rate(y, x)),
        _ => None,
    }
}

pub fn perc_num_is_what_perc_on_num(lhs: &CalcResult, rhs: &CalcResult) -> (r: Option<CalcResult>)
    ensures
        view_of_result(r) == what_perc_on(lhs@, rhs@),
        not_rounded(rate_division(lhs@, rhs@)),
{
    broadcast use group_views;

    proof {
        lemma_not_rounded(rate_division(lhs@, rhs@));
    }
    match (&lhs.typ, &rhs.typ) {
        (CalcResultType::Number(y), CalcResultType::Number(x)) => {
            let p = y.checked_mul(&hundred())?.checked_div(x)?.checked_sub(&hundred())?;
            Some(CalcResult::new(CalcResultType::Percentage(p), 0))
        },
        _ => None,
    }
}

/// `35 is what % off 41`
pub open spec fn what_perc_off(l: ResultView, r: ResultView) -> Option<ResultView> {
    match (l.typ, r.typ) {
        (ValueView::Number(y), ValueView::Number(x)) => percentage_value_of(decrease_rate(y, x)),
        _ => None,
    }
}

pub fn perc_num_is_what_perc_off_num(lhs: &CalcResult, rhs: &CalcResult) -> (r: Option<CalcResult>)
    ensures
        view_of_result(r) == what_perc_off(lhs@, rhs@),
        not_rounded(rate_division(lhs@, rhs@)),
{
    broadcast use group_views;

    proof {
        lemma_not_rounded(rate_division(lhs@, rhs@));
    }
    match (&lhs.typ, &rhs.typ) {
        (CalcResultType::Number(y), CalcResultType::Number(x)) => {
            let p = y.checked_mul(&hundred())?.checked_div(x)?.checked_sub(&hundred())?.neg();
            Some(CalcResult::new(CalcResultType::Percentage(p), 0))
        },
        _ => None,
    }
}

/// `20 is what percent of 60`
pub open spec fn rate_from_result_base(l: ResultView, r: ResultView) -> Option<ResultView> {
    match (l.typ, r.typ) {
        (ValueView::Number(y), ValueView::Number(x)) => percentage_value_of(
            hundredfold_quotient(y, x),
        ),
        _ => None,
    }
}

pub fn percentage_find_rate_from_result_base(lhs: &CalcResult, rhs: &CalcResult) -> (r: Option<
    CalcResult,
>)
    ensures
        view_of_result(r) == rate_from_result_base(lhs@, rhs@),
        not_rounded(plain_division(lhs@.typ, rhs@.typ)),
{
    broadcast use group_views;

    proof {
        lemma_not_rounded(plain_division(lhs@.typ, rhs@.typ));
    }
    match (&lhs.typ, &rhs.typ) {
        (CalcResultType::Number(y), CalcResultType::Number(x)) => {
            let p = y.checked_div(x)?.checked_mul(&hundred())?;
            Some(CalcResult::new(CalcResultType::Percentage(p), 0))
        },
        _ => None,
    }
}

/// `5 is 25% of what`
pub open spec fn base_from_result_rate(l: ResultView, r: ResultView) -> Option<ResultView> {
    match (l.typ, r.typ) {
        (ValueView::Number(y), ValueView::Percentage(p)) => number_of(hundredfold_quotient(y, p)),
        _ => None,
    }
}

pub fn percentage_find_base_from_result_rate(lhs: &CalcResult, rhs: &CalcResult) -> (r: Option<
    CalcResult,
>)
    ensures
        view_of_result(r) == base_from_result_rate(lhs@, rhs@),
        not_rounded(plain_division(lhs@.typ, rhs@.typ)),
{
    broadcast use group_views;

    proof {
        lemma_not_rounded(plain_division(lhs@.typ, rhs@.typ));
    }
    match (&lhs.typ, &rhs.typ) {
        (CalcResultType::Number(y), CalcResultType::Percentage(p)) => {
            let x = y.checked_div(p)?.checked_mul(&hundred())?;
            Some(CalcResult::new(CalcResultType::Number(x), 0))
        },
        _ => None,
    }
}

} // verus!
