//! What the operations make of matrices, told by their cells.
use crate::addition::cell_sums;
use crate::addition::sum;
use crate::arithmetic::all_some;
use crate::decimal::larger;
use crate::decimal::magnitude;
use crate::decimal::sum_is_exact;
use crate::decimal::ten_to;
use crate::decimal::DecimalView;
use crate::decimal::MANTISSA_BOUND;
use crate::decimal_laws::lemma_powers_of_ten_multiply;
use crate::division::cell_quotients;
use crate::division::quotient;
use crate::exact::law_number_at_scale;
use crate::multiplication::cell_index;
use crate::multiplication::dot;
use crate::multiplication::dots;
use crate::multiplication::law_cells_of_products;
use crate::multiplication::lemma_cell_index;
use crate::multiplication::product;
use crate::multiplication::scaled;
use crate::multiplication::scaled_cells;
use crate::operation::converted;
use crate::operation::converted_cells;
use crate::scalar_laws::can_be_added;
use crate::scalar_laws::decimal_in;
use crate::scalar_laws::has_no_token;
use crate::scalar_laws::is_like;
use crate::scalar_laws::law_sums_add;
use crate::scalar_laws::number_in;
use crate::subtraction::cell_differences;
use crate::subtraction::difference;
use crate::value::MatrixView;
use crate::value::ResultView;
use crate::value::ValueView;
use vstd::arithmetic::div_mod::lemma_fundamental_div_mod;
use vstd::prelude::*;

verus! {

/// The value is a matrix of that shape with that many cells, and stands for no token.
pub open spec fn has_shape(r: ResultView, rows: nat, cols: nat, count: nat) -> bool {
    has_no_token(r) && (r.typ matches ValueView::Matrix(m) && m.rows == rows && m.cols == cols
        && m.cells.len() == count)
}

/// The cell at a place in a value that is a matrix.
pub open spec fn cell_of(r: ResultView, i: int) -> ResultView {
    r.typ->Matrix_0.cells[i]
}

/// Two matrices have a sum, and a difference, exactly when they have the same shape and so
/// have their cells at every place; it has that shape, and the sums or differences in its
/// cells.
pub proof fn law_matrices_add(l: ResultView, r: ResultView)
    requires
        l.typ matches ValueView::Matrix(a) && r.typ matches ValueView::Matrix(b) && a.cells.len()
            == b.cells.len(),
    ensures
        ({
            let (a, b) = (l.typ->Matrix_0, r.typ->Matrix_0);
            &&& sum(l, r) is Some <==> a.rows == b.rows && a.cols == b.cols && forall|i: int|
                0 <= i < a.cells.len() ==> sum(#[trigger] a.cells[i], b.cells[i]) is Some
            &&& difference(l, r) is Some <==> a.rows == b.rows && a.cols == b.cols && forall|i: int|
                0 <= i < a.cells.len() ==> difference(#[trigger] a.cells[i], b.cells[i]) is Some
            &&& sum(l, r) matches Some(s) ==> has_shape(s, a.rows, a.cols, a.cells.len())
                && forall|i: int|
                0 <= i < a.cells.len() ==> sum(#[trigger] a.cells[i], b.cells[i]) == Some(
                    cell_of(s, i),
                )
            &&& difference(l, r) matches Some(s) ==> has_shape(s, a.rows, a.cols, a.cells.len())
                && forall|i: int|
                0 <= i < a.cells.len() ==> difference(#[trigger] a.cells[i], b.cells[i]) == Some(
                    cell_of(s, i),
                )
        }),
{
    let (a, b) = (l.typ->Matrix_0, r.typ->Matrix_0);
    let (sums, differences) = (cell_sums(a, b), cell_differences(a, b));
    assert forall|i: int| 0 <= i < a.cells.len() implies sums[i] == sum(
        #[trigger] a.cells[i],
        b.cells[i],
    ) && differences[i] == difference(a.cells[i], b.cells[i]) by {}
    if sum(l, r) is Some {
        assert forall|i: int| 0 <= i < a.cells.len() implies sum(
            #[trigger] a.cells[i],
            b.cells[i],
        ) is Some by {
            assert(sums[i] is Some);
        }
    }
    if difference(l, r) is Some {
        assert forall|i: int| 0 <= i < a.cells.len() implies difference(
            #[trigger] a.cells[i],
            b.cells[i],
        ) is Some by {
            assert(differences[i] is Some);
        }
    }
    if forall|i: int| 0 <= i < a.cells.len() ==> sum(#[trigger] a.cells[i], b.cells[i]) is Some {
        assert forall|i: int| 0 <= i < sums.len() implies (#[trigger] sums[i]) is Some by {
            assert(sums[i] == sum(a.cells[i], b.cells[i]));
        }
    }
    if forall|i: int|
        0 <= i < a.cells.len() ==> difference(#[trigger] a.cells[i], b.cells[i]) is Some {
        assert forall|i: int| 0 <= i < differences.len() implies (
        #[trigger] differences[i]) is Some by {
            assert(differences[i] == difference(a.cells[i], b.cells[i]));
        }
    }
}

/// A matrix times a number or a quantity, from either side, or times a percentage from the
/// right, has the products of its cells, and exists when all of them do. Nothing else
/// multiplies a matrix from the left.
pub proof fn law_scalars_multiply_cells(m: ResultView, s: ResultView)
    requires
        m.typ is Matrix,
        s.typ !is Matrix,
        s.typ !is Unit,
    ensures
        ({
            let a = m.typ->Matrix_0;
            &&& product(m, s) is Some <==> forall|i: int|
                0 <= i < a.cells.len() ==> product(#[trigger] a.cells[i], s) is Some
            &&& product(m, s) matches Some(p) ==> has_shape(p, a.rows, a.cols, a.cells.len())
                && forall|i: int|
                0 <= i < a.cells.len() ==> product(#[trigger] a.cells[i], s) == Some(cell_of(p, i))
            &&& product(s, m) == (if s.typ is Percentage {
                None
            } else {
                product(m, s)
            })
        }),
{
    let a = m.typ->Matrix_0;
    let answers = scaled_cells(a, s.typ);
    assert forall|i: int| 0 <= i < a.cells.len() implies answers[i] == product(
        #[trigger] a.cells[i],
        s,
    ) by {
        assert(product(a.cells[i], s) == scaled(a.cells[i], s.typ));
    }
    if product(m, s) is Some {
        assert forall|i: int| 0 <= i < a.cells.len() implies product(
            #[trigger] a.cells[i],
            s,
        ) is Some by {
            assert(answers[i] is Some);
        }
    }
    if forall|i: int| 0 <= i < a.cells.len() ==> product(#[trigger] a.cells[i], s) is Some {
        assert forall|i: int| 0 <= i < answers.len() implies (#[trigger] answers[i]) is Some by {
            assert(answers[i] == product(a.cells[i], s));
        }
    }
}

/// A matrix divided by a number, a percentage or a quantity has the quotients of its cells,
/// and exists when all of them do; a matrix converts by its cells in the same way.
pub proof fn law_cells_are_divided_and_converted(m: ResultView, s: ResultView)
    requires
        m.typ is Matrix,
        s.typ !is Matrix,
    ensures
        ({
            let a = m.typ->Matrix_0;
            &&& s.typ !is Unit ==> (quotient(m, s) is Some <==> forall|i: int|
                0 <= i < a.cells.len() ==> quotient(#[trigger] a.cells[i], s) is Some)
            &&& quotient(m, s) matches Some(p) ==> has_shape(p, a.rows, a.cols, a.cells.len())
                && forall|i: int|
                0 <= i < a.cells.len() ==> quotient(#[trigger] a.cells[i], s) == Some(cell_of(p, i))
            &&& s.typ is Unit ==> (converted(m, s) is Some <==> forall|i: int|
                0 <= i < a.cells.len() ==> converted(#[trigger] a.cells[i], s) is Some)
            &&& s.typ !is Unit ==> converted(m, s) is None
            &&& converted(m, s) matches Some(p) ==> has_shape(p, a.rows, a.cols, a.cells.len())
                && forall|i: int|
                0 <= i < a.cells.len() ==> converted(#[trigger] a.cells[i], s) == Some(
                    cell_of(p, i),
                )
        }),
{
    let a = m.typ->Matrix_0;
    let (q, c) = (cell_quotients(a, s), converted_cells(a, s));
    assert forall|i: int| 0 <= i < a.cells.len() implies q[i] == quotient(
        #[trigger] a.cells[i],
        s,
    ) && c[i] == converted(a.cells[i], s) by {}
    if quotient(m, s) is Some {
        assert forall|i: int| 0 <= i < a.cells.len() implies quotient(
            #[trigger] a.cells[i],
            s,
        ) is Some by {
            assert(q[i] is Some);
        }
    }
    if converted(m, s) is Some {
        assert forall|i: int| 0 <= i < a.cells.len() implies converted(
            #[trigger] a.cells[i],
            s,
        ) is Some by {
            assert(c[i] is Some);
        }
    }
    if forall|i: int| 0 <= i < a.cells.len() ==> quotient(#[trigger] a.cells[i], s) is Some {
        assert forall|i: int| 0 <= i < q.len() implies (#[trigger] q[i]) is Some by {
            assert(q[i] == quotient(a.cells[i], s));
        }
    }
    if forall|i: int| 0 <= i < a.cells.len() ==> converted(#[trigger] a.cells[i], s) is Some {
        assert forall|i: int| 0 <= i < c.len() implies (#[trigger] c[i]) is Some by {
            assert(c[i] == converted(a.cells[i], s));
        }
    }
}

/// The product of the `k`-th cell of a row with the `k`-th cell of a column.
pub open spec fn term(a: MatrixView, b: MatrixView, row: nat, col: nat, k: nat) -> Option<
    ResultView,
> {
    product(a.cells[(row * a.cols + k) as int], b.cells[(k * b.cols + col) as int])
}

/// The sum of the numbers of the first `n` products; one that does not exist adds nothing.
pub open spec fn total(a: MatrixView, b: MatrixView, row: nat, col: nat, n: nat) -> real
    decreases n,
{
    if n == 0 {
        0 as real
    } else {
        total(a, b, row, col, (n - 1) as nat) + match term(a, b, row, col, (n - 1) as nat) {
            Some(t) => number_in(t),
            None => 0 as real,
        }
    }
}

/// The sum of the first `n` products, without their signs, as a multiple of `10^-places`.
pub open spec fn total_size(
    a: MatrixView,
    b: MatrixView,
    row: nat,
    col: nat,
    n: nat,
    places: nat,
) -> nat
    decreases n,
{
    if n == 0 {
        0
    } else {
        total_size(a, b, row, col, (n - 1) as nat, places) + match term(
            a,
            b,
            row,
            col,
            (n - 1) as nat,
        ) {
            Some(t) => magnitude(decimal_in(t.typ).at_scale(places)),
            None => 0,
        }
    }
}

/// The first of the `n` products exists, the others that do can be added to it, and with
/// `places` decimal places for each of them the sum takes no rounding.
pub open spec fn adds_up_exactly(
    a: MatrixView,
    b: MatrixView,
    row: nat,
    col: nat,
    n: nat,
    places: nat,
) -> bool {
    &&& term(a, b, row, col, 0) is Some
    &&& forall|k: nat|
        #![trigger term(a, b, row, col, k)]
        k < n ==> (term(a, b, row, col, k) matches Some(t) ==> can_be_added(
            term(a, b, row, col, 0)->Some_0,
            t,
        ) && decimal_in(t.typ).scale <= places)
    &&& total_size(a, b, row, col, n, places) < MANTISSA_BOUND
}

proof fn lemma_smaller_scale(d: DecimalView, few: nat, many: nat)
    requires
        d.scale <= few <= many,
    ensures
        magnitude(d.at_scale(few)) <= magnitude(d.at_scale(many)),
        d.at_scale(many) == d.at_scale(few) * ten_to((many - few) as nat),
        ten_to((many - few) as nat) > 0,
{
    lemma_powers_of_ten_multiply((few - d.scale) as nat, (many - few) as nat);
    let (s, t, u) = (d.signed(), ten_to((few - d.scale) as nat), ten_to((many - few) as nat));
    assert(s * (t * u) == (s * t) * u && magnitude(s * t) <= magnitude((s * t) * u))
        by (nonlinear_arith)
        requires
            u >= 1,
            forall|x: int| #[trigger]
                magnitude(x) == (if x < 0 {
                    (-x) as nat
                } else {
                    x as nat
                }),
    ;
}

/// Numbers that are small enough at a common scale are added exactly.
proof fn lemma_adds_exactly(x: DecimalView, y: DecimalView, places: nat)
    requires
        x.scale <= places,
        y.scale <= places,
        magnitude(x.at_scale(places)) + magnitude(y.at_scale(places)) < MANTISSA_BOUND,
    ensures
        sum_is_exact(x, y),
        larger(x.scale, y.scale) <= places,
{
    let few = larger(x.scale, y.scale);
    lemma_smaller_scale(x, few, places);
    lemma_smaller_scale(y, few, places);
    let (a, b, t) = (x.at_scale(few), y.at_scale(few), ten_to((places - few) as nat));
    assert(a * t + b * t == (a + b) * t) by (nonlinear_arith);
    let c = a + b;
    assert((c >= 0 ==> c <= c * t) && (c < 0 ==> c * t <= c)) by (nonlinear_arith)
        requires
            t >= 1,
    ;
}

proof fn lemma_total(a: MatrixView, b: MatrixView, row: nat, col: nat, n: nat, places: nat)
    requires
        a.cells.len() == a.rows * a.cols,
        row < a.rows,
        0 < n <= a.cols,
        adds_up_exactly(a, b, row, col, n, places),
    ensures
        dot(a, b, row as int, col as int, n) matches Some(s) && {
            &&& is_like(s.typ, term(a, b, row, col, 0)->Some_0.typ)
            &&& number_in(s) == total(a, b, row, col, n)
            &&& decimal_in(s.typ).scale <= places
            &&& magnitude(decimal_in(s.typ).at_scale(places)) <= total_size(
                a,
                b,
                row,
                col,
                n,
                places,
            )
        },
    decreases n,
{
    let k = (n - 1) as nat;
    lemma_cell_index(row, a.rows, k, a.cols);
    let first = term(a, b, row, col, 0)->Some_0;
    if n == 1 {
        assert(total(a, b, row, col, 1) == total(a, b, row, col, 0) + number_in(first));
        assert(total_size(a, b, row, col, 1, places) == total_size(a, b, row, col, 0, places)
            + magnitude(decimal_in(first.typ).at_scale(places)));
        assert(can_be_added(first, first));
    } else {
        lemma_total(a, b, row, col, k, places);
        let before = dot(a, b, row as int, col as int, k)->Some_0;
        if let Some(t) = term(a, b, row, col, k) {
            let (x, y) = (decimal_in(before.typ), decimal_in(t.typ));
            lemma_adds_exactly(x, y, places);
            law_sums_add(before, t);
            let s = sum(before, t)->Some_0;
            let z = decimal_in(s.typ);
            law_number_at_scale(x, places);
            law_number_at_scale(y, places);
            law_number_at_scale(z, places);
            let (p, q, w, u) = (
                x.at_scale(places),
                y.at_scale(places),
                z.at_scale(places),
                ten_to(places) as real,
            );
            assert(w == p + q) by (nonlinear_arith)
                requires
                    number_in(before) * u == p as real,
                    number_in(t) * u == q as real,
                    number_in(s) * u == w as real,
                    number_in(s) == number_in(before) + number_in(t),
            ;
        }
    }
}

/// The cell of a matrix product is the sum of the products of the cells of a row with those
/// of a column, where these can be added and nothing is rounded. It is of the kind of the
/// first product and has its unit.
pub proof fn law_cells_of_products_add_up(
    l: ResultView,
    r: ResultView,
    row: nat,
    col: nat,
    places: nat,
)
    requires
        l.typ matches ValueView::Matrix(a) && r.typ matches ValueView::Matrix(b) && a.cells.len()
            == a.rows * a.cols && row < a.rows && col < b.cols && a.cols > 0 && adds_up_exactly(
            a,
            b,
            row,
            col,
            a.cols,
            places,
        ),
        product(l, r) is Some,
    ensures
        ({
            let (a, b) = (l.typ->Matrix_0, r.typ->Matrix_0);
            let cell = cell_of(product(l, r)->Some_0, (row * b.cols + col) as int);
            &&& is_like(cell.typ, term(a, b, row, col, 0)->Some_0.typ)
            &&& number_in(cell) == total(a, b, row, col, a.cols)
        }),
{
    let (a, b) = (l.typ->Matrix_0, r.typ->Matrix_0);
    law_cells_of_products(l, r, row, col);
    lemma_total(a, b, row, col, a.cols, places);
}

/// The first `n` products of a row with a column, added up from the left as they come.
pub open spec fn added_up(a: MatrixView, b: MatrixView, row: nat, col: nat, n: nat) -> Option<
    ResultView,
>
    decreases n,
{
    if n <= 1 {
        if n == 0 {
            None
        } else {
            term(a, b, row, col, 0)
        }
    } else {
        match (added_up(a, b, row, col, (n - 1) as nat), term(a, b, row, col, (n - 1) as nat)) {
            (Some(before), Some(t)) => sum(before, t),
            (before, _) => before,
        }
    }
}

proof fn lemma_added_up(a: MatrixView, b: MatrixView, row: nat, col: nat, n: nat)
    requires
        a.cells.len() == a.rows * a.cols,
        row < a.rows,
        n <= a.cols,
    ensures
        dot(a, b, row as int, col as int, n) == added_up(a, b, row, col, n),
    decreases n,
{
    if n > 0 {
        lemma_cell_index(row, a.rows, (n - 1) as nat, a.cols);
        lemma_added_up(a, b, row, col, (n - 1) as nat);
    }
}

/// Matrices have a product exactly when the left one has as many columns as the right one has
/// rows and every row adds up with every column; it has the rows of the left one and the
/// columns of the right one.
pub proof fn law_matrices_multiply(l: ResultView, r: ResultView)
    requires
        l.typ matches ValueView::Matrix(a) && r.typ matches ValueView::Matrix(b) && a.cells.len()
            == a.rows * a.cols,
    ensures
        ({
            let (a, b) = (l.typ->Matrix_0, r.typ->Matrix_0);
            &&& product(l, r) is Some <==> a.cols == b.rows && forall|row: nat, col: nat|
                row < a.rows && col < b.cols ==> #[trigger] added_up(a, b, row, col, a.cols)
                    is Some
            &&& product(l, r) matches Some(p) ==> has_shape(p, a.rows, b.cols, a.rows * b.cols)
                && forall|row: nat, col: nat|
                row < a.rows && col < b.cols ==> #[trigger] added_up(a, b, row, col, a.cols)
                    == Some(cell_of(p, (row * b.cols + col) as int))
        }),
{
    let (a, b) = (l.typ->Matrix_0, r.typ->Matrix_0);
    let answers = dots(a, b);
    assert forall|row: nat, col: nat| row < a.rows && col < b.cols implies answers[cell_index(
        row as int,
        col as int,
        b.cols,
    )] == #[trigger] added_up(a, b, row, col, a.cols) && 0 <= cell_index(
        row as int,
        col as int,
        b.cols,
    ) < answers.len() by {
        lemma_cell_index(row, a.rows, col, b.cols);
        lemma_added_up(a, b, row, col, a.cols);
    }
    if a.cols == b.rows {
        if forall|row: nat, col: nat|
            row < a.rows && col < b.cols ==> #[trigger] added_up(a, b, row, col, a.cols) is Some {
            assert forall|k: int| 0 <= k < answers.len() implies (#[trigger] answers[k]) is Some by {
                let (row, col) = lemma_place(k, a.rows, b.cols);
                assert(added_up(a, b, row, col, a.cols) is Some);
            }
        } else {
            let (row, col) = choose|row: nat, col: nat|
                row < a.rows && col < b.cols && (#[trigger] added_up(a, b, row, col, a.cols))
                    is None;
            assert(answers[cell_index(row as int, col as int, b.cols)] is None);
            assert(all_some(answers) is None);
        }
    }
}

/// Every place in a matrix is in a row and a column.
proof fn lemma_place(k: int, rows: nat, cols: nat) -> (place: (nat, nat))
    requires
        0 <= k < rows * cols,
    ensures
        place.0 < rows,
        place.1 < cols,
        cell_index(place.0 as int, place.1 as int, cols) == k,
{
    let c = cols as int;
    assert(c > 0) by (nonlinear_arith)
        requires
            0 <= k < rows * c,
            c >= 0,
    ;
    lemma_fundamental_div_mod(k, c);
    let (row, col) = (k / c, k % c);
    assert(0 <= row < rows && row * c + col == k) by (nonlinear_arith)
        requires
            k == c * row + col,
            0 <= col < c,
            0 <= k < rows * c,
    ;
    (row as nat, col as nat)
}

} // verus!
