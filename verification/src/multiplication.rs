//! Multiplication of values.
use crate::addition::add_op;
use crate::addition::sum;
use crate::arithmetic::lemma_cells_are_all;
use crate::arithmetic::matrix_of;
use crate::arithmetic::quantity_of;
use crate::arithmetic::quantity_or_number;
use crate::decimal::decimal_product;
use crate::decimal::decimal_quotient;
use crate::decimal::not_rounded;
use crate::decimal::DecimalView;
use crate::decimal_laws::lemma_not_rounded;
use crate::percentage::hundred;
use crate::percentage::hundred_view;
use crate::percentage::hundredth_division;
use crate::percentage::number_of;
use crate::percentage::percentage_of;
use crate::percentage::percentage_value_of;
use crate::percentage::share;
use crate::units::MAX_UNIT_COUNT;
use crate::value::group_views;
use crate::value::matrix_well_formed;
use crate::value::view_of_result;
use crate::value::well_formed;
use crate::value::CalcResult;
use crate::value::CalcResultType;
use crate::value::MatrixData;
use crate::value::MatrixView;
use crate::value::ResultView;
use crate::value::ValueView;
use vstd::arithmetic::div_mod::lemma_fundamental_div_mod_converse;
use vstd::arithmetic::mul::lemma_mul_inequality;
use vstd::prelude::*;

verus! {

/// The product of two percentages, `(p / 100) * (q / 100)`.
pub open spec fn rate_product(p: DecimalView, q: DecimalView) -> Option<DecimalView> {
    match (decimal_quotient(p, hundred_view()), decimal_quotient(q, hundred_view())) {
        (Some(p), Some(q)) => decimal_product(p, q),
        _ => None,
    }
}

/// The product of two values neither of which is a matrix: numbers and quantities multiply
/// with each other, a percentage takes its share of the other operand. A unit alone has no
/// product.
pub open spec fn scalar_product(l: ValueView, r: ValueView) -> Option<ResultView> {
    match (l, r) {
        (ValueView::Number(a), ValueView::Number(b)) => number_of(decimal_product(a, b)),
        (ValueView::Number(a), ValueView::Quantity(b, v)) => quantity_of(
            decimal_product(a, b),
            Some(v),
        ),
        (ValueView::Number(a), ValueView::Percentage(q)) => number_of(share(q, a)),
        (ValueView::Quantity(a, u), ValueView::Number(b)) => quantity_of(
            decimal_product(a, b),
            Some(u),
        ),
        (ValueView::Quantity(a, u), ValueView::Quantity(b, v)) => if u.factors.len()
            + v.factors.len() >= MAX_UNIT_COUNT {
            None
        } else {
            quantity_of(decimal_product(a, b), u.product(v))
        },
        (ValueView::Quantity(a, u), ValueView::Percentage(q)) => quantity_of(share(q, a), Some(u)),
        (ValueView::Percentage(p), ValueView::Number(b)) => number_of(share(p, b)),
        (ValueView::Percentage(p), ValueView::Quantity(b, v)) => quantity_of(share(p, b), Some(v)),
        (ValueView::Percentage(p), ValueView::Percentage(q)) => percentage_value_of(
            rate_product(p, q),
        ),
        _ => None,
    }
}

/// `c` times a value that is no matrix; a matrix is multiplied cell by cell.
pub open spec fn scaled(c: ResultView, s: ValueView) -> Option<ResultView>
    decreases c,
{
    match c.typ {
        ValueView::Matrix(m) => if s is Unit {
            None
        } else {
            matrix_of(scaled_cells(m, s), m.rows, m.cols)
        },
        _ => scalar_product(c.typ, s),
    }
}

pub open spec fn scaled_cells(m: MatrixView, s: ValueView) -> Seq<Option<ResultView>>
    decreases m,
{
    Seq::new(
        m.cells.len(),
        |i: int|
            if 0 <= i < m.cells.len() {
                scaled(m.cells[i], s)
            } else {
                None
            },
    )
}

/// `l * r`. Matrices multiply with each other when the columns of the left one are as many as
/// the rows of the right one. A matrix multiplies with a number or a quantity from either
/// side, and with a percentage from the right.
pub open spec fn product(l: ResultView, r: ResultView) -> Option<ResultView>
    decreases l, 0nat,
{
    match (l.typ, r.typ) {
        (ValueView::Matrix(a), ValueView::Matrix(b)) => if a.cols == b.rows {
            matrix_of(dots(a, b), a.rows, b.cols)
        } else {
            None
        },
        (ValueView::Number(_), ValueView::Matrix(_)) => scaled(r, l.typ),
        (ValueView::Quantity(..), ValueView::Matrix(_)) => scaled(r, l.typ),
        (_, ValueView::Matrix(_)) => None,
        _ => scaled(l, r.typ),
    }
}

/// The cells of a matrix product, row after row.
pub open spec fn dots(a: MatrixView, b: MatrixView) -> Seq<Option<ResultView>>
    decreases a, a.cols + 1,
{
    Seq::new(
        a.rows * b.cols,
        |k: int| dot(a, b, k / b.cols as int, k % b.cols as int, a.cols),
    )
}

/// The first `n` products of row `row` of `a` with column `col` of `b`, added up from the
/// left. The first product must exist, later ones that do not are left out; sums that do not
/// exist leave no answer.
pub open spec fn dot(a: MatrixView, b: MatrixView, row: int, col: int, n: nat) -> Option<ResultView>
    decreases a, n,
{
    if n == 0 {
        None
    } else {
        let i = cell_index(row, n - 1, a.cols);
        let term = if 0 <= i < a.cells.len() {
            product(a.cells[i], b.cells[cell_index(n - 1, col, b.cols)])
        } else {
            None
        };
        if n == 1 {
            term
        } else {
            match dot(a, b, row, col, (n - 1) as nat) {
                None => None,
                Some(before) => match term {
                    Some(term) => sum(before, term),
                    None => Some(before),
                },
            }
        }
    }
}

/// Where the cell of a row and a column stands in a matrix of `cols` columns.
pub open spec fn cell_index(row: int, col: int, cols: nat) -> int {
    row * cols + col
}

pub proof fn lemma_cell_index(row: nat, rows: nat, col: nat, cols: nat)
    requires
        row < rows,
        col < cols,
    ensures
        0 <= row * cols <= cell_index(row as int, col as int, cols) < rows * cols,
        cell_index(row as int, col as int, cols) / cols as int == row,
        cell_index(row as int, col as int, cols) % cols as int == col,
{
    lemma_mul_inequality((row + 1) as int, rows as int, cols as int);
    assert((row + 1) * cols == row * cols + cols) by (nonlinear_arith);
    assert(0 <= row * cols);
    lemma_fundamental_div_mod_converse(
        cell_index(row as int, col as int, cols),
        cols as int,
        row as int,
        col as int,
    );
}

impl MatrixData {
    /// The cell of a row and a column.
    pub fn cell(&self, row: usize, col: usize) -> (r: &CalcResult)
        requires
            self@.cells.len() == self@.rows * self@.cols,
            row < self@.rows,
            col < self@.cols,
        ensures
            r@ == self@.cells[cell_index(row as int, col as int, self@.cols)],
            *r == self.cells@[cell_index(row as int, col as int, self@.cols)],
    {
        broadcast use group_views;

        proof {
            lemma_cell_index(row as nat, self@.rows, col as nat, self@.cols);
            assert(self@.cells.len() == self.cells.len() <= usize::MAX);
        }
        &self.cells[row * self.col_count + col]
    }

    /// Every cell times `scalar`.
    pub fn mult_scalar(&self, scalar: &CalcResult) -> (r: Option<CalcResult>)
        requires
            scalar@.typ !is Matrix,
        ensures
            view_of_result(r) == matrix_of(
                scaled_cells(self@, scalar@.typ),
                self@.rows,
                self@.cols,
            ),
        decreases self,
    {
        broadcast use group_views;

        let ghost answers = scaled_cells(self@, scalar@.typ);
        let mut cells: Vec<CalcResult> = Vec::new();
        let mut i: usize = 0;
        while i < self.cells.len()
            invariant
                i <= self.cells.len(),
                scalar@.typ !is Matrix,
                answers == scaled_cells(self@, scalar@.typ),
                answers.len() == self.cells.len(),
                forall|j: int|
                    0 <= j < answers.len() ==> #[trigger] answers[j] == scaled(
                        self@.cells[j],
                        scalar@.typ,
                    ),
                cells.len() == i,
                forall|j: int| 0 <= j < i ==> #[trigger] answers[j] == Some(cells@[j]@),
            decreases self.cells.len() - i,
        {
            match multiply_by_scalar(&self.cells[i], scalar) {
                Some(cell) => {
                    cells.push(cell);
                },
                None => {
                    assert(answers[i as int] is None);
                    return None;
                },
            }
            i = i + 1;
        }
        proof {
            lemma_cells_are_all(cells@, answers);
        }
        Some(
            CalcResult::new(
                CalcResultType::Matrix(MatrixData::new(cells, self.row_count, self.col_count)),
                0,
            ),
        )
    }
}

/// A value times another one that is no matrix.
fn multiply_by_scalar(value: &CalcResult, scalar: &CalcResult) -> (r: Option<CalcResult>)
    requires
        scalar@.typ !is Matrix,
    ensures
        view_of_result(r) == scaled(value@, scalar@.typ),
    decreases value,
{
    broadcast use group_views;

    match (&value.typ, &scalar.typ) {
        (CalcResultType::Matrix(_), CalcResultType::Unit(_)) => None,
        (CalcResultType::Matrix(mat), _) => mat.mult_scalar(scalar),
        _ => multiply_scalars(value, scalar),
    }
}

/// The product of two values neither of which is a matrix.
fn multiply_scalars(lhs: &CalcResult, rhs: &CalcResult) -> (r: Option<CalcResult>)
    ensures
        view_of_result(r) == scalar_product(lhs@.typ, rhs@.typ),
{
    broadcast use group_views;

    match (&lhs.typ, &rhs.typ) {
        (CalcResultType::Number(a), CalcResultType::Number(b)) => {
            // 12 * 2
            Some(CalcResult::new(CalcResultType::Number(a.checked_mul(b)?), 0))
        },
        (CalcResultType::Number(a), CalcResultType::Quantity(b, v)) => {
            // 12 * 2km
            Some(quantity_or_number(a.checked_mul(b)?, v.clone()))
        },
        (CalcResultType::Number(a), CalcResultType::Percentage(q)) => {
            // 100 * 50%
            Some(CalcResult::new(CalcResultType::Number(percentage_of(q, a)?), 0))
        },
        (CalcResultType::Quantity(a, u), CalcResultType::Number(b)) => {
            // 2m * 5
            Some(quantity_or_number(a.checked_mul(b)?, u.clone()))
        },
        (CalcResultType::Quantity(a, u), CalcResultType::Quantity(b, v)) => {
            // 2s * 3s
            if u.unit_count() >= MAX_UNIT_COUNT || v.unit_count() >= MAX_UNIT_COUNT - u.unit_count() {
                None
            } else {
                Some(quantity_or_number(a.checked_mul(b)?, u.times(v)?))
            }
        },
        (CalcResultType::Quantity(a, u), CalcResultType::Percentage(q)) => {
            // 2m * 50%
            Some(quantity_or_number(percentage_of(q, a)?, u.clone()))
        },
        (CalcResultType::Percentage(p), CalcResultType::Number(b)) => {
            // 5% * 10
            Some(CalcResult::new(CalcResultType::Number(percentage_of(p, b)?), 0))
        },
        (CalcResultType::Percentage(p), CalcResultType::Quantity(b, v)) => {
            // 5% * 10km
            Some(quantity_or_number(percentage_of(p, b)?, v.clone()))
        },
        (CalcResultType::Percentage(p), CalcResultType::Percentage(q)) => {
            // 50% * 50%
            let rate = p.checked_div(&hundred())?.checked_mul(&q.checked_div(&hundred())?)?;
            Some(CalcResult::new(CalcResultType::Percentage(rate), 0))
        },
        _ => None,
    }
}

/// Where the first products leave no answer, more of them leave none either.
proof fn lemma_dot_needs_each_step(a: MatrixView, b: MatrixView, row: int, col: int, n: nat, m: nat)
    requires
        dot(a, b, row, col, n) is None,
        1 <= n <= m,
    ensures
        dot(a, b, row, col, m) is None,
    decreases m,
{
    if n < m {
        lemma_dot_needs_each_step(a, b, row, col, n, (m - 1) as nat);
    }
}

/// A row of one matrix times a column of another one.
fn dot_product(a: &MatrixData, b: &MatrixData, row: usize, col: usize) -> (r: Option<CalcResult>)
    requires
        matrix_well_formed(a@),
        matrix_well_formed(b@),
        a@.cols == b@.rows,
        row < a@.rows,
        col < b@.cols,
    ensures
        view_of_result(r) == dot(a@, b@, row as int, col as int, a@.cols),
    decreases a, 0nat,
{
    broadcast use group_views;

    if a.col_count == 0 {
        return None;
    }
    proof {
        lemma_cell_index(row as nat, a@.rows, 0, a@.cols);
        lemma_cell_index(0, b@.rows, col as nat, b@.cols);
    }
    let first = multiply_op(a.cell(row, 0), b.cell(0, col));
    proof {
        if first is None {
            lemma_dot_needs_each_step(a@, b@, row as int, col as int, 1, a@.cols);
        }
    }
    let mut total = first?;
    let mut i: usize = 1;
    while i < a.col_count
        invariant
            matrix_well_formed(a@),
            matrix_well_formed(b@),
            a@.cols == b@.rows,
            row < a@.rows,
            col < b@.cols,
            1 <= i <= a.col_count,
            dot(a@, b@, row as int, col as int, i as nat) == Some(total@),
        decreases a.col_count - i,
    {
        proof {
            lemma_cell_index(row as nat, a@.rows, i as nat, a@.cols);
            lemma_cell_index(i as nat, b@.rows, col as nat, b@.cols);
        }
        let term = multiply_op(a.cell(row, i), b.cell(i, col));
        i = i + 1;
        match term {
            Some(term) => {
                match add_op(&total, &term) {
                    Some(next) => {
                        total = next;
                    },
                    None => {
                        proof {
                            lemma_dot_needs_each_step(
                                a@,
                                b@,
                                row as int,
                                col as int,
                                i as nat,
                                a@.cols,
                            );
                        }
                        return None;
                    },
                }
            },
            None => {},
        }
    }
    Some(total)
}

fn multiply_matrices(a: &MatrixData, b: &MatrixData) -> (r: Option<CalcResult>)
    requires
        a@.cols == b@.rows ==> matrix_well_formed(a@) && matrix_well_formed(b@),
    ensures
        view_of_result(r) == (if a@.cols == b@.rows {
            matrix_of(dots(a@, b@), a@.rows, b@.cols)
        } else {
            None
        }),
    decreases a, 1nat,
{
    broadcast use group_views;

    if a.col_count != b.row_count {
        return None;
    }
    let ghost answers = dots(a@, b@);
    let mut cells: Vec<CalcResult> = Vec::new();
    let mut row: usize = 0;
    assert(0 * b@.cols == 0);
    while row < a.row_count
        invariant
            row <= a.row_count,
            matrix_well_formed(a@),
            matrix_well_formed(b@),
            a@.cols == b@.rows,
            answers == dots(a@, b@),
            cells.len() == row * b@.cols,
            forall|k: int| 0 <= k < cells.len() ==> #[trigger] answers[k] == Some(cells@[k]@),
        decreases a.row_count - row,
    {
        let mut col: usize = 0;
        while col < b.col_count
            invariant
                row < a.row_count,
                col <= b.col_count,
                matrix_well_formed(a@),
                matrix_well_formed(b@),
                a@.cols == b@.rows,
                answers == dots(a@, b@),
                cells.len() == row * b@.cols + col,
                forall|k: int| 0 <= k < cells.len() ==> #[trigger] answers[k] == Some(cells@[k]@),
            decreases b.col_count - col,
        {
            proof {
                lemma_cell_index(row as nat, a@.rows, col as nat, b@.cols);
            }
            match dot_product(a, b, row, col) {
                Some(cell) => {
                    cells.push(cell);
                },
                None => {
                    assert(answers[cells.len() as int] is None);
                    return None;
                },
            }
            col = col + 1;
        }
        assert((row + 1) * b@.cols == row * b@.cols + b@.cols) by (nonlinear_arith);
        row = row + 1;
    }
    proof {
        lemma_cells_are_all(cells@, answers);
    }
    Some(
        CalcResult::new(
            CalcResultType::Matrix(MatrixData::new(cells, a.row_count, b.col_count)),
            0,
        ),
    )
}

/// Two matrices of matching shapes are multiplied by looking up their cells, which have to be
/// there.
pub open spec fn cells_are_there(l: ResultView, r: ResultView) -> bool {
    match (l.typ, r.typ) {
        (ValueView::Matrix(a), ValueView::Matrix(b)) => a.cols == b.rows ==> well_formed(l)
            && well_formed(r),
        _ => true,
    }
}

pub fn multiply_op(lhs: &CalcResult, rhs: &CalcResult) -> (r: Option<CalcResult>)
    requires
        cells_are_there(lhs@, rhs@),
    ensures
        view_of_result(r) == product(lhs@, rhs@),
        not_rounded(hundredth_division(lhs@.typ)),
        not_rounded(hundredth_division(rhs@.typ)),
    decreases lhs, 0nat,
{
    broadcast use group_views;

    proof {
        lemma_not_rounded(hundredth_division(lhs@.typ));
        lemma_not_rounded(hundredth_division(rhs@.typ));
    }
    match (&lhs.typ, &rhs.typ) {
        (CalcResultType::Matrix(a), CalcResultType::Matrix(b)) => multiply_matrices(a, b),
        (CalcResultType::Number(_), CalcResultType::Matrix(mat)) => mat.mult_scalar(lhs),
        (CalcResultType::Quantity(..), CalcResultType::Matrix(mat)) => mat.mult_scalar(lhs),
        (_, CalcResultType::Matrix(_)) => None,
        _ => multiply_by_scalar(lhs, rhs),
    }
}

/// The cell of a matrix product is the product of a row with a column.
pub proof fn law_cells_of_products(l: ResultView, r: ResultView, row: nat, col: nat)
    requires
        l.typ matches ValueView::Matrix(a) && r.typ matches ValueView::Matrix(b) && row < a.rows
            && col < b.cols,
        product(l, r) is Some,
    ensures
        ({
            let (a, b) = (l.typ->Matrix_0, r.typ->Matrix_0);
            let cells = product(l, r)->Some_0.typ->Matrix_0.cells;
            dot(a, b, row as int, col as int, a.cols) == Some(
                cells[cell_index(row as int, col as int, b.cols)],
            )
        }),
{
    let (a, b) = (l.typ->Matrix_0, r.typ->Matrix_0);
    lemma_cell_index(row, a.rows, col, b.cols);
    assert(dots(a, b)[cell_index(row as int, col as int, b.cols)] is Some);
}

} // verus!
