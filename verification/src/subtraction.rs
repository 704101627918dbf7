//! Subtraction of values.
use crate::arithmetic::decreased;
use crate::arithmetic::lemma_cells_are_all;
use crate::arithmetic::matrix_of;
use crate::arithmetic::same_unit_of;
use crate::arithmetic::shorter;
use crate::decimal::decimal_difference;
use crate::decimal::not_rounded;
use crate::decimal_laws::lemma_not_rounded;
use crate::percentage::hundredth_division;
use crate::percentage::number_of;
use crate::percentage::percentage_of;
use crate::percentage::percentage_value_of;
use crate::value::group_views;
use crate::value::view_of_result;
use crate::value::CalcResult;
use crate::value::CalcResultType;
use crate::value::MatrixData;
use crate::value::MatrixView;
use crate::value::ResultView;
use crate::value::ValueView;
use vstd::prelude::*;

verus! {

/// `l - r`: numbers from numbers, quantities from quantities of the same dimensions,
/// percentages from percentages, matrices from matrices of the same shape, cell by cell; a
/// percentage on the right decreases a number or a quantity. There is no other difference.
pub open spec fn difference(l: ResultView, r: ResultView) -> Option<ResultView>
    decreases l,
{
    match (l.typ, r.typ) {
        (ValueView::Number(a), ValueView::Number(b)) => number_of(decimal_difference(a, b)),
        (ValueView::Number(a), ValueView::Percentage(p)) => number_of(decreased(a, p)),
        (ValueView::Quantity(a, u), ValueView::Quantity(b, v)) => if u.dimensions == v.dimensions {
            same_unit_of(decimal_difference(a, b), u)
        } else {
            None
        },
        (ValueView::Quantity(a, u), ValueView::Percentage(p)) => same_unit_of(decreased(a, p), u),
        (ValueView::Percentage(p), ValueView::Percentage(q)) => percentage_value_of(
            decimal_difference(p, q),
        ),
        (ValueView::Matrix(a), ValueView::Matrix(b)) => if a.rows == b.rows && a.cols == b.cols {
            matrix_of(cell_differences(a, b), a.rows, a.cols)
        } else {
            None
        },
        _ => None,
    }
}

pub open spec fn cell_differences(a: MatrixView, b: MatrixView) -> Seq<Option<ResultView>>
    decreases a,
{
    Seq::new(
        shorter(a.cells.len(), b.cells.len()),
        |i: int|
            if 0 <= i < a.cells.len() {
                difference(a.cells[i], b.cells[i])
            } else {
                None
            },
    )
}

pub fn sub_op(lhs: &CalcResult, rhs: &CalcResult) -> (r: Option<CalcResult>)
    ensures
        view_of_result(r) == difference(lhs@, rhs@),
        not_rounded(hundredth_division(lhs@.typ)),
    decreases lhs,
{
    broadcast use group_views;

    proof {
        lemma_not_rounded(hundredth_division(lhs@.typ));
    }
    match (&lhs.typ, &rhs.typ) {
        (CalcResultType::Number(a), CalcResultType::Number(b)) => {
            // 12 - 3
            Some(CalcResult::new(CalcResultType::Number(a.checked_sub(b)?), 0))
        },
        (CalcResultType::Number(a), CalcResultType::Percentage(p)) => {
            // 100 - 50%
            let part = percentage_of(p, a)?;
            Some(CalcResult::new(CalcResultType::Number(a.checked_sub(&part)?), 0))
        },
        (CalcResultType::Quantity(a, u), CalcResultType::Quantity(b, v)) => {
            // 2s - 3s
            if *u == *v {
                Some(CalcResult::new(CalcResultType::Quantity(a.checked_sub(b)?, u.clone()), 0))
            } else {
                None
            }
        },
        (CalcResultType::Quantity(a, u), CalcResultType::Percentage(p)) => {
            // 2m - 50%
            let part = percentage_of(p, a)?;
            Some(CalcResult::new(CalcResultType::Quantity(a.checked_sub(&part)?, u.clone()), 0))
        },
        (CalcResultType::Percentage(p), CalcResultType::Percentage(q)) => {
            // 50% - 50%
            Some(CalcResult::new(CalcResultType::Percentage(p.checked_sub(q)?), 0))
        },
        (CalcResultType::Matrix(a), CalcResultType::Matrix(b)) => {
            if a.row_count != b.row_count || a.col_count != b.col_count {
                return None;
            }
            let ghost differences = cell_differences(a@, b@);
            let mut cells: Vec<CalcResult> = Vec::new();
            let mut i: usize = 0;
            while i < a.cells.len() && i < b.cells.len()
                invariant
                    i <= a.cells.len(),
                    i <= b.cells.len(),
                    differences.len() == shorter(a@.cells.len(), b@.cells.len()),
                    lhs.typ == CalcResultType::Matrix(*a),
                    not_rounded(hundredth_division(lhs@.typ)),
                    difference(lhs@, rhs@) == matrix_of(differences, a@.rows, a@.cols),
                    forall|j: int|
                        0 <= j < differences.len() ==> #[trigger] differences[j] == difference(
                            a@.cells[j],
                            b@.cells[j],
                        ),
                    cells.len() == i,
                    forall|j: int| 0 <= j < i ==> #[trigger] differences[j] == Some(cells@[j]@),
                decreases a.cells.len() - i,
            {
                match sub_op(&a.cells[i], &b.cells[i]) {
                    Some(cell) => {
                        cells.push(cell);
                    },
                    None => {
                        assert(differences[i as int] is None);
                        return None;
                    },
                }
                i = i + 1;
            }
            proof {
                lemma_cells_are_all(cells@, differences);
            }
            Some(
                CalcResult::new(
                    CalcResultType::Matrix(MatrixData::new(cells, a.row_count, a.col_count)),
                    0,
                ),
            )
        },
        _ => None,
    }
}

} // verus!
