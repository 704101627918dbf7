//! Division of values.
use crate::arithmetic::lemma_cells_are_all;
use crate::arithmetic::matrix_of;
use crate::arithmetic::quantity_of;
use crate::arithmetic::quantity_or_number;
use crate::arithmetic::same_unit_of;
use crate::decimal::decimal_quotient;
use crate::decimal::not_rounded;
use crate::decimal::DecimalView;
use crate::decimal_laws::lemma_not_rounded;
use crate::percentage::hundred;
use crate::percentage::hundred_view;
use crate::percentage::hundredfold_quotient;
use crate::percentage::hundredth_division;
use crate::percentage::number_of;
use crate::percentage::percentage_value_of;
use crate::percentage::plain_division;
use crate::units::UnitView;
use crate::units::MAX_UNIT_COUNT;
use crate::value::group_views;
use crate::value::view_of_result;
use crate::value::CalcResult;
use crate::value::CalcResultType;
use crate::value::MatrixData;
use crate::value::MatrixView;
use crate::value::ResultView;
use crate::value::ValueView;
use vstd::prelude::*;

verus! {

/// `num` per `unit`, such as `12 / year`.
pub open spec fn rate_per(num: DecimalView, unit: UnitView) -> Option<ResultView> {
    match unit.power(-1) {
        Some(inverse) => quantity_of(inverse.normalized(num), Some(inverse)),
        None => None,
    }
}

/// The quotient of two values neither of which is a matrix. Dividing by a unit gives a rate;
/// a quantity divided by a unit of its own dimensions is the number of its units. Nothing is
/// divided by zero, and no percentage by anything but a unit.
pub open spec fn scalar_quotient(l: ValueView, r: ValueView) -> Option<ResultView> {
    match (l, r) {
        (ValueView::Quantity(a, u), ValueView::Unit(v)) => match u.quotient(v) {
            Some(w) => if w.is_unitless() {
                number_of(u.denormalized(a))
            } else {
                same_unit_of(Some(a), w)
            },
            None => None,
        },
        (ValueView::Number(a), ValueView::Unit(v)) => rate_per(a, v),
        (ValueView::Percentage(p), ValueView::Unit(v)) => match decimal_quotient(
            p,
            hundred_view(),
        ) {
            Some(rate) => rate_per(rate, v),
            None => None,
        },
        (ValueView::Number(a), ValueView::Number(b)) => number_of(decimal_quotient(a, b)),
        (ValueView::Number(a), ValueView::Quantity(b, v)) => match v.denormalized(b) {
            Some(count) => match decimal_quotient(a, count) {
                Some(quotient) => rate_per(quotient, v),
                None => None,
            },
            None => None,
        },
        (ValueView::Number(a), ValueView::Percentage(q)) => percentage_value_of(
            hundredfold_quotient(a, q),
        ),
        (ValueView::Quantity(a, u), ValueView::Number(b)) => quantity_of(
            decimal_quotient(a, b),
            Some(u),
        ),
        (ValueView::Quantity(a, u), ValueView::Quantity(b, v)) => if u.factors.len()
            + v.factors.len() >= MAX_UNIT_COUNT {
            None
        } else {
            quantity_of(decimal_quotient(a, b), u.quotient(v))
        },
        _ => None,
    }
}

/// `l / r`. A matrix is divided cell by cell, and nothing is divided by a matrix.
pub open spec fn quotient(l: ResultView, r: ResultView) -> Option<ResultView>
    decreases l,
{
    match (l.typ, r.typ) {
        (_, ValueView::Matrix(_)) => None,
        (ValueView::Matrix(_), ValueView::Unit(_)) => None,
        (ValueView::Matrix(m), _) => matrix_of(cell_quotients(m, r), m.rows, m.cols),
        _ => scalar_quotient(l.typ, r.typ),
    }
}

pub open spec fn cell_quotients(m: MatrixView, r: ResultView) -> Seq<Option<ResultView>>
    decreases m,
{
    Seq::new(
        m.cells.len(),
        |i: int|
            if 0 <= i < m.cells.len() {
                quotient(m.cells[i], r)
            } else {
                None
            },
    )
}

impl MatrixData {
    /// Every cell divided by `scalar`.
    pub fn div_scalar(&self, scalar: &CalcResult) -> (r: Option<CalcResult>)
        ensures
            view_of_result(r) == matrix_of(cell_quotients(self@, scalar@), self@.rows, self@.cols),
        decreases self,
    {
        broadcast use group_views;

        let ghost answers = cell_quotients(self@, scalar@);
        let mut cells: Vec<CalcResult> = Vec::new();
        let mut i: usize = 0;
        while i < self.cells.len()
            invariant
                i <= self.cells.len(),
                answers == cell_quotients(self@, scalar@),
                answers.len() == self.cells.len(),
                forall|j: int|
                    0 <= j < answers.len() ==> #[trigger] answers[j] == quotient(
                        self@.cells[j],
                        scalar@,
                    ),
                cells.len() == i,
                forall|j: int| 0 <= j < i ==> #[trigger] answers[j] == Some(cells@[j]@),
            decreases self.cells.len() - i,
        {
            match divide_op(&self.cells[i], scalar) {
                Some(cell) => {
                    cells.push(cell);
                },
                None => {
                    assert(answers[i as int] is None);
                    return None;
                },
            }
            i = i + 1;
        }
        proof {
            lemma_cells_are_all(cells@, answers);
        }
        Some(
            CalcResult::new(
                CalcResultType::Matrix(MatrixData::new(cells, self.row_count, self.col_count)),
                0,
            ),
        )
    }
}

/// The division of a number by the number of units of a quantity.
pub open spec fn count_division(l: ValueView, r: ValueView) -> Option<(DecimalView, DecimalView)> {
    match (l, r) {
        (ValueView::Number(a), ValueView::Quantity(b, v)) => match v.denormalized(b) {
            Some(count) => Some((a, count)),
            None => None,
        },
        _ => None,
    }
}

/// The divisions of a value, or of the cells of a matrix, are not rounded where they come out
/// as decimals.
pub open spec fn divisions_are_exact(l: ResultView, r: ResultView) -> bool
    decreases l,
{
    match l.typ {
        ValueView::Matrix(m) => forall|i: int|
            0 <= i < m.cells.len() ==> divisions_are_exact(#[trigger] m.cells[i], r),
        _ => {
            &&& not_rounded(plain_division(l.typ, r.typ))
            &&& not_rounded(count_division(l.typ, r.typ))
            &&& not_rounded(hundredth_division(l.typ))
        },
    }
}

/// Every division of a value is as exact as a decimal can be.
pub proof fn lemma_divisions_are_exact(l: ResultView, r: ResultView)
    ensures
        divisions_are_exact(l, r),
    decreases l,
{
    match l.typ {
        ValueView::Matrix(m) => {
            assert forall|i: int| 0 <= i < m.cells.len() implies divisions_are_exact(
                #[trigger] m.cells[i],
                r,
            ) by {
                lemma_divisions_are_exact(m.cells[i], r);
            }
        },
        _ => {
            lemma_not_rounded(plain_division(l.typ, r.typ));
            lemma_not_rounded(count_division(l.typ, r.typ));
            lemma_not_rounded(hundredth_division(l.typ));
        },
    }
}

pub fn divide_op(lhs: &CalcResult, rhs: &CalcResult) -> (r: Option<CalcResult>)
    ensures
        view_of_result(r) == quotient(lhs@, rhs@),
        divisions_are_exact(lhs@, rhs@),
    decreases lhs,
{
    broadcast use group_views;

    proof {
        lemma_divisions_are_exact(lhs@, rhs@);
    }
    match (&lhs.typ, &rhs.typ) {
        (CalcResultType::Quantity(a, u), CalcResultType::Unit(v)) => {
            // 12km / year
            let unit = u.per(v)?;
            if unit.is_unitless() {
                Some(CalcResult::new(CalcResultType::Number(u.from_base_to_this_unit(a)?), 0))
            } else {
                Some(CalcResult::new(CalcResultType::Quantity(*a, unit), 0))
            }
        },
        (CalcResultType::Number(a), CalcResultType::Unit(v)) => {
            // 12 / year
            let unit = v.pow(-1)?;
            Some(quantity_or_number(unit.normalize(a)?, unit))
        },
        (CalcResultType::Percentage(p), CalcResultType::Unit(v)) => {
            // 5% / year
            let unit = v.pow(-1)?;
            Some(quantity_or_number(unit.normalize(&p.checked_div(&hundred())?)?, unit))
        },
        (CalcResultType::Number(a), CalcResultType::Number(b)) => {
            // 100 / 2
            Some(CalcResult::new(CalcResultType::Number(a.checked_div(b)?), 0))
        },
        (CalcResultType::Number(a), CalcResultType::Quantity(b, v)) => {
            // 100 / 2km => 100 / (2 km)
            let unit = v.pow(-1)?;
            let count = v.from_base_to_this_unit(b)?;
            Some(quantity_or_number(unit.normalize(&a.checked_div(&count)?)?, unit))
        },
        (CalcResultType::Number(a), CalcResultType::Percentage(q)) => {
            // 100 / 50%
            let rate = a.checked_div(q)?.checked_mul(&hundred())?;
            Some(CalcResult::new(CalcResultType::Percentage(rate), 0))
        },
        (CalcResultType::Quantity(a, u), CalcResultType::Number(b)) => {
            // 2m / 5
            Some(quantity_or_number(a.checked_div(b)?, u.clone()))
        },
        (CalcResultType::Quantity(a, u), CalcResultType::Quantity(b, v)) => {
            // 12 km / 3s
            if u.unit_count() >= MAX_UNIT_COUNT || v.unit_count() >= MAX_UNIT_COUNT
                - u.unit_count() {
                None
            } else {
                Some(quantity_or_number(a.checked_div(b)?, u.per(v)?))
            }
        },
        (CalcResultType::Matrix(mat), CalcResultType::Number(_)) => mat.div_scalar(rhs),
        (CalcResultType::Matrix(mat), CalcResultType::Quantity(..)) => mat.div_scalar(rhs),
        (CalcResultType::Matrix(mat), CalcResultType::Percentage(_)) => mat.div_scalar(rhs),
        _ => None,
    }
}

} // verus!
