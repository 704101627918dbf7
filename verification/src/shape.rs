//! Operators keep the shapes of matrices in order.
use crate::addition::cell_sums;
use crate::addition::sum;
use crate::arithmetic::matrix_of;
use crate::division::cell_quotients;
use crate::division::quotient;
use crate::multiplication::cell_index;
use crate::multiplication::dot;
use crate::multiplication::dots;
use crate::multiplication::lemma_cell_index;
use crate::multiplication::product;
use crate::multiplication::scaled;
use crate::multiplication::scaled_cells;
use crate::operation::all_well_formed;
use crate::operation::applied;
use crate::operation::binary;
use crate::operation::converted;
use crate::operation::converted_cells;
use crate::operation::is_binary;
use crate::operation::is_unary;
use crate::subtraction::cell_differences;
use crate::subtraction::difference;
use crate::token::OperatorTokenType;
use crate::value::matrix_well_formed;
use crate::value::well_formed;
use crate::value::MatrixView;
use crate::value::ResultView;
use crate::value::ValueView;
use vstd::arithmetic::div_mod::lemma_fundamental_div_mod;
use vstd::prelude::*;

verus! {

/// A matrix made of well-formed cells, as many as its shape says, is well-formed.
proof fn lemma_matrix_of(cells: Seq<Option<ResultView>>, rows: nat, cols: nat)
    requires
        matrix_of(cells, rows, cols) is Some,
        cells.len() == rows * cols,
        forall|i: int|
            0 <= i < cells.len() && (#[trigger] cells[i]) is Some ==> well_formed(cells[i]->Some_0),
    ensures
        well_formed(matrix_of(cells, rows, cols)->Some_0),
{
    let m = matrix_of(cells, rows, cols)->Some_0.typ->Matrix_0;
    assert forall|i: int| 0 <= i < m.cells.len() implies well_formed(#[trigger] m.cells[i]) by {
        assert(cells[i] is Some);
    }
    assert(matrix_well_formed(m));
}

/// A sum is well-formed where its operands are.
pub proof fn law_sum_is_well_formed(l: ResultView, r: ResultView)
    requires
        well_formed(l),
        well_formed(r),
        sum(l, r) is Some,
    ensures
        well_formed(sum(l, r)->Some_0),
    decreases l,
{
    if let (ValueView::Matrix(a), ValueView::Matrix(b)) = (l.typ, r.typ) {
        assert(matrix_well_formed(a) && matrix_well_formed(b));
        let cells = cell_sums(a, b);
        assert forall|i: int| 0 <= i < cells.len() && (#[trigger] cells[i]) is Some implies
            well_formed(cells[i]->Some_0) by {
            assert(well_formed(a.cells[i]) && well_formed(b.cells[i]));
            law_sum_is_well_formed(a.cells[i], b.cells[i]);
        }
        lemma_matrix_of(cells, a.rows, a.cols);
    }
}

/// A difference is well-formed where its operands are.
pub proof fn law_difference_is_well_formed(l: ResultView, r: ResultView)
    requires
        well_formed(l),
        well_formed(r),
        difference(l, r) is Some,
    ensures
        well_formed(difference(l, r)->Some_0),
    decreases l,
{
    if let (ValueView::Matrix(a), ValueView::Matrix(b)) = (l.typ, r.typ) {
        assert(matrix_well_formed(a) && matrix_well_formed(b));
        let cells = cell_differences(a, b);
        assert forall|i: int| 0 <= i < cells.len() && (#[trigger] cells[i]) is Some implies
            well_formed(cells[i]->Some_0) by {
            assert(well_formed(a.cells[i]) && well_formed(b.cells[i]));
            law_difference_is_well_formed(a.cells[i], b.cells[i]);
        }
        lemma_matrix_of(cells, a.rows, a.cols);
    }
}

/// A matrix times a scalar is well-formed where the matrix is.
proof fn lemma_scaled(c: ResultView, s: ValueView)
    requires
        well_formed(c),
        scaled(c, s) is Some,
        s !is Matrix,
    ensures
        well_formed(scaled(c, s)->Some_0),
    decreases c,
{
    if let ValueView::Matrix(m) = c.typ {
        assert(matrix_well_formed(m));
        let cells = scaled_cells(m, s);
        assert forall|i: int| 0 <= i < cells.len() && (#[trigger] cells[i]) is Some implies
            well_formed(cells[i]->Some_0) by {
            assert(well_formed(m.cells[i]));
            lemma_scaled(m.cells[i], s);
        }
        lemma_matrix_of(cells, m.rows, m.cols);
    }
}

/// A product is well-formed where its operands are.
pub proof fn law_product_is_well_formed(l: ResultView, r: ResultView)
    requires
        well_formed(l),
        well_formed(r),
        product(l, r) is Some,
    ensures
        well_formed(product(l, r)->Some_0),
    decreases l, 0nat,
{
    match (l.typ, r.typ) {
        (ValueView::Matrix(a), ValueView::Matrix(b)) => {
            assert(matrix_well_formed(a) && matrix_well_formed(b));
            let cells = dots(a, b);
            assert forall|k: int| 0 <= k < cells.len() && (#[trigger] cells[k]) is Some implies
                well_formed(cells[k]->Some_0) by {
                lemma_row_and_column(k, a.rows, b.cols);
                lemma_dot(a, b, k / b.cols as int, k % b.cols as int, a.cols);
            }
            lemma_matrix_of(cells, a.rows, b.cols);
        },
        (_, ValueView::Matrix(_)) => {
            lemma_scaled(r, l.typ);
        },
        _ => {
            lemma_scaled(l, r.typ);
        },
    }
}

proof fn lemma_row_and_column(k: int, rows: nat, cols: nat)
    requires
        0 <= k < rows * cols,
    ensures
        cols > 0,
        0 <= k / (cols as int) < rows,
        0 <= k % (cols as int) < cols,
{
    assert(cols > 0) by (nonlinear_arith)
        requires
            0 < rows * cols,
    ;
    lemma_fundamental_div_mod(k, cols as int);
    let q = k / cols as int;
    assert(0 <= q < rows) by (nonlinear_arith)
        requires
            0 <= k < rows * cols,
            k == cols * q + k % cols as int,
            0 <= k % (cols as int) < cols,
    ;
}

proof fn lemma_dot(a: MatrixView, b: MatrixView, row: int, col: int, n: nat)
    requires
        matrix_well_formed(a),
        matrix_well_formed(b),
        a.cols == b.rows,
        0 <= row < a.rows,
        0 <= col < b.cols,
        n <= a.cols,
        dot(a, b, row, col, n) is Some,
    ensures
        well_formed(dot(a, b, row, col, n)->Some_0),
    decreases a, n,
{
    let i = n - 1;
    lemma_cell_index(row as nat, a.rows, i as nat, a.cols);
    lemma_cell_index(i as nat, b.rows, col as nat, b.cols);
    let left = a.cells[cell_index(row, i, a.cols)];
    let right = b.cells[cell_index(i, col, b.cols)];
    assert(well_formed(left) && well_formed(right));
    let term = product(left, right);
    if term is Some {
        law_product_is_well_formed(left, right);
    }
    if n > 1 {
        let before = dot(a, b, row, col, (n - 1) as nat);
        lemma_dot(a, b, row, col, (n - 1) as nat);
        if term is Some {
            law_sum_is_well_formed(before->Some_0, term->Some_0);
        }
    }
}

/// A quotient is well-formed where its dividend is.
pub proof fn law_quotient_is_well_formed(l: ResultView, r: ResultView)
    requires
        well_formed(l),
        quotient(l, r) is Some,
    ensures
        well_formed(quotient(l, r)->Some_0),
    decreases l,
{
    if let ValueView::Matrix(m) = l.typ {
        assert(matrix_well_formed(m));
        let cells = cell_quotients(m, r);
        assert forall|i: int| 0 <= i < cells.len() && (#[trigger] cells[i]) is Some implies
            well_formed(cells[i]->Some_0) by {
            assert(well_formed(m.cells[i]));
            law_quotient_is_well_formed(m.cells[i], r);
        }
        lemma_matrix_of(cells, m.rows, m.cols);
    }
}

/// A converted value is well-formed where the value is.
pub proof fn law_conversion_is_well_formed(l: ResultView, r: ResultView)
    requires
        well_formed(l),
        converted(l, r) is Some,
    ensures
        well_formed(converted(l, r)->Some_0),
    decreases l,
{
    if let ValueView::Matrix(m) = l.typ {
        assert(matrix_well_formed(m));
        let cells = converted_cells(m, r);
        assert forall|i: int| 0 <= i < cells.len() && (#[trigger] cells[i]) is Some implies
            well_formed(cells[i]->Some_0) by {
            assert(well_formed(m.cells[i]));
            law_conversion_is_well_formed(m.cells[i], r);
        }
        lemma_matrix_of(cells, m.rows, m.cols);
    }
}

/// Whatever two values an operator is applied to, the result is well-formed where they are.
pub proof fn law_binary_is_well_formed(op: OperatorTokenType, l: ResultView, r: ResultView)
    requires
        well_formed(l),
        well_formed(r),
        binary(op, l, r) is Some,
    ensures
        well_formed(binary(op, l, r)->Some_0),
{
    match op {
        OperatorTokenType::Mult => law_product_is_well_formed(l, r),
        OperatorTokenType::Div => law_quotient_is_well_formed(l, r),
        OperatorTokenType::Add => law_sum_is_well_formed(l, r),
        OperatorTokenType::Sub => law_difference_is_well_formed(l, r),
        OperatorTokenType::UnitConverter => law_conversion_is_well_formed(l, r),
        _ => {},
    }
}

/// Every operator leaves a stack of well-formed values behind where it found one.
pub proof fn law_operators_keep_the_stack_well_formed(
    stack: Seq<ResultView>,
    op: OperatorTokenType,
    op_index: usize,
)
    requires
        all_well_formed(stack),
        applied(stack, op, op_index) is Some,
    ensures
        all_well_formed(applied(stack, op, op_index)->Some_0),
{
    let after = applied(stack, op, op_index)->Some_0;
    let n = stack.len();
    if is_binary(op) {
        law_binary_is_well_formed(op, stack[n - 2], stack[n - 1]);
    } else if is_unary(op) {
        assert(well_formed(stack[n - 1]));
    } else if let OperatorTokenType::Matrix { row_count, col_count } = op {
        let m = after.last().typ->Matrix_0;
        assert forall|i: int| 0 <= i < m.cells.len() implies well_formed(#[trigger] m.cells[i]) by {
            assert(m.cells[i] == stack[n - row_count * col_count + i]);
        }
        assert(matrix_well_formed(m));
    }
}

} // verus!
