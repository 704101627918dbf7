//! What the arithmetic operations on values have in common.
use crate::decimal::decimal_difference;
use crate::decimal::decimal_sum;
use crate::decimal::Decimal;
use crate::decimal::DecimalView;
use crate::percentage::share;
use crate::units::UnitOutput;
use crate::units::UnitView;
use crate::value::group_views;
use crate::value::plain;
use crate::value::results_view;
use crate::value::CalcResult;
use crate::value::CalcResultType;
use crate::value::MatrixView;
use crate::value::ResultView;
use crate::value::ValueView;
use vstd::prelude::*;

verus! {

/// All the answers, where there is one at every place.
pub open spec fn all_some<T>(s: Seq<Option<T>>) -> Option<Seq<T>> {
    if forall|i: int| 0 <= i < s.len() ==> (#[trigger] s[i]) is Some {
        Some(s.map_values(|o: Option<T>| o->Some_0))
    } else {
        None
    }
}

pub open spec fn shorter(a: nat, b: nat) -> nat {
    if a < b {
        a
    } else {
        b
    }
}

/// A matrix of the given cells, where there is an answer for each.
pub open spec fn matrix_of(cells: Seq<Option<ResultView>>, rows: nat, cols: nat) -> Option<
    ResultView,
> {
    match all_some(cells) {
        Some(cells) => Some(plain(ValueView::Matrix(MatrixView { cells, rows, cols }))),
        None => None,
    }
}

/// A number with its unit; just the number where the dimensions have cancelled out.
pub open spec fn quantity_of(n: Option<DecimalView>, u: Option<UnitView>) -> Option<ResultView> {
    match (n, u) {
        (Some(n), Some(u)) => if u.is_unitless() {
            Some(plain(ValueView::Number(n)))
        } else {
            Some(plain(ValueView::Quantity(n, u)))
        },
        _ => None,
    }
}

/// A number with the unit that it already had.
pub open spec fn same_unit_of(n: Option<DecimalView>, u: UnitView) -> Option<ResultView> {
    match n {
        Some(n) => Some(plain(ValueView::Quantity(n, u))),
        None => None,
    }
}

/// `base` increased by `rate` percent.
pub open spec fn increased(base: DecimalView, rate: DecimalView) -> Option<DecimalView> {
    match share(rate, base) {
        Some(part) => decimal_sum(base, part),
        None => None,
    }
}

/// `base` decreased by `rate` percent.
pub open spec fn decreased(base: DecimalView, rate: DecimalView) -> Option<DecimalView> {
    match share(rate, base) {
        Some(part) => decimal_difference(base, part),
        None => None,
    }
}

/// A number with its unit; just the number where the dimensions have cancelled out.
pub(crate) fn quantity_or_number(num: Decimal, unit: UnitOutput) -> (r: CalcResult)
    ensures
        Some(r@) == quantity_of(Some(num@), Some(unit@)),
{
    broadcast use group_views;

    if unit.is_unitless() {
        CalcResult::new(CalcResultType::Number(num), 0)
    } else {
        CalcResult::new(CalcResultType::Quantity(num, unit), 0)
    }
}

/// Cells that are the answers at every place are all the answers.
pub proof fn lemma_cells_are_all(cells: Seq<CalcResult>, answers: Seq<Option<ResultView>>)
    requires
        cells.len() == answers.len(),
        forall|j: int| 0 <= j < answers.len() ==> #[trigger] answers[j] == Some(cells[j]@),
    ensures
        all_some(answers) == Some(results_view(cells)),
{
    broadcast use group_views;

    assert(all_some(answers) is Some);
    assert(all_some(answers)->Some_0 =~= results_view(cells));
}

} // verus!
