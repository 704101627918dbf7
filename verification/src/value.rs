//! The values that an expression can have.
use crate::decimal::Decimal;
use crate::decimal::DecimalView;
use crate::units::UnitOutput;
use crate::units::UnitView;
use vstd::prelude::*;

verus! {

/// A value and the tokens of the source text that it stands for.
#[derive(Debug, PartialEq, Eq)]
pub struct CalcResult {
    pub typ: CalcResultType,
    pub index_into_tokens: usize,
    pub index2_into_tokens: Option<usize>,
}

#[derive(Debug, PartialEq, Eq)]
pub enum CalcResultType {
    Number(Decimal),
    Percentage(Decimal),
    Unit(UnitOutput),
    Quantity(Decimal, UnitOutput),
    Matrix(MatrixData),
}

/// A matrix, row after row.
#[derive(Debug, PartialEq, Eq)]
pub struct MatrixData {
    pub cells: Vec<CalcResult>,
    pub row_count: usize,
    pub col_count: usize,
}

/// The model of a [`CalcResult`].
#[verifier::ext_equal]
pub struct ResultView {
    pub typ: ValueView,
    pub index: usize,
    pub index2: Option<usize>,
}

/// The model of a [`CalcResultType`].
#[verifier::ext_equal]
pub enum ValueView {
    Number(DecimalView),
    Percentage(DecimalView),
    Unit(UnitView),
    Quantity(DecimalView, UnitView),
    Matrix(MatrixView),
}

/// The model of a [`MatrixData`].
#[verifier::ext_equal]
pub struct MatrixView {
    pub cells: Seq<ResultView>,
    pub rows: nat,
    pub cols: nat,
}

pub open spec fn result_view(r: CalcResult) -> ResultView
    decreases r,
{
    ResultView {
        typ: value_view(r.typ),
        index: r.index_into_tokens,
        index2: r.index2_into_tokens,
    }
}

pub open spec fn value_view(t: CalcResultType) -> ValueView
    decreases t,
{
    match t {
        CalcResultType::Number(n) => ValueView::Number(n@),
        CalcResultType::Percentage(n) => ValueView::Percentage(n@),
        CalcResultType::Unit(u) => ValueView::Unit(u@),
        CalcResultType::Quantity(n, u) => ValueView::Quantity(n@, u@),
        CalcResultType::Matrix(m) => ValueView::Matrix(matrix_view(m)),
    }
}

pub open spec fn matrix_view(m: MatrixData) -> MatrixView
    decreases m,
{
    MatrixView {
        cells: results_view(m.cells@),
        rows: m.row_count as nat,
        cols: m.col_count as nat,
    }
}

pub open spec fn results_view(s: Seq<CalcResult>) -> Seq<ResultView>
    decreases s,
{
    Seq::new(
        s.len(),
        |i: int|
            if 0 <= i < s.len() {
                result_view(s[i])
            } else {
                arbitrary()
            },
    )
}

impl View for CalcResult {
    type V = ResultView;

    open spec fn view(&self) -> ResultView {
        result_view(*self)
    }
}

impl View for CalcResultType {
    type V = ValueView;

    open spec fn view(&self) -> ValueView {
        value_view(*self)
    }
}

impl View for MatrixData {
    type V = MatrixView;

    open spec fn view(&self) -> MatrixView {
        matrix_view(*self)
    }
}

/// The view of an optional result.
pub open spec fn view_of_result(r: Option<CalcResult>) -> Option<ResultView> {
    match r {
        Some(r) => Some(r@),
        None => None,
    }
}

/// The number, or the number of base units or percent, of a value.
pub open spec fn amount(v: ValueView) -> Option<DecimalView> {
    match v {
        ValueView::Number(n) => Some(n),
        ValueView::Percentage(n) => Some(n),
        ValueView::Quantity(n, _) => Some(n),
        _ => None,
    }
}

/// A value that stands for no token in particular.
pub open spec fn plain(typ: ValueView) -> ResultView {
    ResultView { typ, index: 0, index2: None }
}

/// Every matrix in the value has as many cells as its shape says.
pub open spec fn well_formed(r: ResultView) -> bool
    decreases r,
{
    match r.typ {
        ValueView::Matrix(m) => matrix_well_formed(m),
        _ => true,
    }
}

pub open spec fn matrix_well_formed(m: MatrixView) -> bool
    decreases m,
{
    &&& m.cells.len() == m.rows * m.cols
    &&& forall|i: int| 0 <= i < m.cells.len() ==> well_formed(#[trigger] m.cells[i])
}

/// How the view of a value is made up of the views of its parts.
pub broadcast proof fn lemma_result_view(r: CalcResult)
    ensures
        #[trigger] result_view(r) == (ResultView {
            typ: value_view(r.typ),
            index: r.index_into_tokens,
            index2: r.index2_into_tokens,
        }),
{
}

pub broadcast proof fn lemma_value_view(t: CalcResultType)
    ensures
        #[trigger] value_view(t) == (match t {
            CalcResultType::Number(n) => ValueView::Number(n@),
            CalcResultType::Percentage(n) => ValueView::Percentage(n@),
            CalcResultType::Unit(u) => ValueView::Unit(u@),
            CalcResultType::Quantity(n, u) => ValueView::Quantity(n@, u@),
            CalcResultType::Matrix(m) => ValueView::Matrix(matrix_view(m)),
        }),
{
}

pub broadcast proof fn lemma_matrix_view(m: MatrixData)
    ensures
        #[trigger] matrix_view(m) == (MatrixView {
            cells: results_view(m.cells@),
            rows: m.row_count as nat,
            cols: m.col_count as nat,
        }),
{
}

pub broadcast proof fn lemma_results_view_len(s: Seq<CalcResult>)
    ensures
        (#[trigger] results_view(s)).len() == s.len(),
{
}

pub broadcast proof fn lemma_results_view(s: Seq<CalcResult>, i: int)
    requires
        0 <= i < s.len(),
    ensures
        #[trigger] results_view(s)[i] == result_view(s[i]),
{
}

pub broadcast group group_views {
    lemma_result_view,
    lemma_value_view,
    lemma_matrix_view,
    lemma_results_view_len,
    lemma_results_view,
}

impl Clone for CalcResult {
    fn clone(&self) -> (r: CalcResult)
        ensures
            r@ == self@,
        decreases self,
    {
        broadcast use group_views;

        CalcResult {
            typ: self.typ.clone(),
            index_into_tokens: self.index_into_tokens,
            index2_into_tokens: self.index2_into_tokens,
        }
    }
}

impl Clone for CalcResultType {
    fn clone(&self) -> (r: CalcResultType)
        ensures
            r@ == self@,
        decreases self,
    {
        broadcast use group_views;

        match self {
            CalcResultType::Number(n) => CalcResultType::Number(*n),
            CalcResultType::Percentage(n) => CalcResultType::Percentage(*n),
            CalcResultType::Unit(u) => CalcResultType::Unit(u.clone()),
            CalcResultType::Quantity(n, u) => CalcResultType::Quantity(*n, u.clone()),
            CalcResultType::Matrix(m) => CalcResultType::Matrix(m.clone()),
        }
    }
}

impl Clone for MatrixData {
    fn clone(&self) -> (r: MatrixData)
        ensures
            r@ == self@,
        decreases self,
    {
        broadcast use group_views;

        let mut cells: Vec<CalcResult> = Vec::new();
        let mut i: usize = 0;
        while i < self.cells.len()
            invariant
                i <= self.cells.len(),
                results_view(cells@) == results_view(self.cells@).take(i as int),
            decreases self.cells.len() - i,
        {
            let ghost before = cells@;
            let cell = self.cells[i].clone();
            cells.push(cell);
            assert(results_view(cells@) =~= results_view(before).push(cell@));
            assert(results_view(cells@) =~= results_view(self.cells@).take(i + 1));
            i = i + 1;
        }
        assert(results_view(cells@) =~= results_view(self.cells@));
        MatrixData { cells, row_count: self.row_count, col_count: self.col_count }
    }
}

impl CalcResult {
    pub fn new(typ: CalcResultType, index: usize) -> (r: CalcResult)
        ensures
            r@ == (ResultView { typ: typ@, index, index2: None }),
    {
        broadcast use group_views;

        CalcResult { typ, index_into_tokens: index, index2_into_tokens: None }
    }

    pub fn new2(typ: CalcResultType, index: usize, index2: usize) -> (r: CalcResult)
        ensures
            r@ == (ResultView { typ: typ@, index, index2: Some(index2) }),
    {
        broadcast use group_views;

        CalcResult { typ, index_into_tokens: index, index2_into_tokens: Some(index2) }
    }

    pub fn get_index_into_tokens(&self) -> (r: usize)
        ensures
            r == self@.index,
    {
        self.index_into_tokens
    }

    /// A result that holds nothing, for use as a temporary value.
    pub fn hack_empty() -> (r: CalcResult)
        ensures
            r@ == plain(
                ValueView::Matrix(MatrixView { cells: Seq::empty(), rows: 0, cols: 0 }),
            ),
    {
        broadcast use group_views;

        let r = CalcResult {
            typ: CalcResultType::Matrix(
                MatrixData { cells: Vec::new(), row_count: 0, col_count: 0 },
            ),
            index_into_tokens: 0,
            index2_into_tokens: None,
        };
        assert(r@.typ->Matrix_0.cells =~= Seq::empty());
        r
    }

    pub fn zero() -> (r: CalcResult)
        ensures
            r@ == plain(ValueView::Number(DecimalView::integer(0))),
    {
        broadcast use group_views;

        CalcResult::new(CalcResultType::Number(Decimal::zero()), 0)
    }
}

impl MatrixData {
    pub fn new(cells: Vec<CalcResult>, row_count: usize, col_count: usize) -> (r: MatrixData)
        ensures
            r@ == (MatrixView {
                cells: results_view(cells@),
                rows: row_count as nat,
                cols: col_count as nat,
            }),
    {
        broadcast use group_views;

        MatrixData { cells, row_count, col_count }
    }
}

} // verus!
