//! The operators of expressions.
use crate::addition::add_op;
use crate::addition::sum;
use crate::arithmetic::lemma_cells_are_all;
use crate::arithmetic::matrix_of;
use crate::arithmetic::same_unit_of;
use crate::bitwise::bitwise_and_op;
use crate::bitwise::bitwise_not;
use crate::bitwise::bitwise_or_op;
use crate::bitwise::bitwise_shift_left;
use crate::bitwise::bitwise_shift_right;
use crate::bitwise::bitwise_xor_op;
use crate::bitwise::complement;
use crate::bitwise::conjunction;
use crate::bitwise::disjunction;
use crate::bitwise::exclusive_or;
use crate::bitwise::shifted_left;
use crate::bitwise::shifted_right;
use crate::decimal::not_rounded;
use crate::decimal::Decimal;
use crate::decimal::DecimalView;
use crate::decimal_laws::lemma_not_rounded;
use crate::division::divide_op;
use crate::division::quotient;
use crate::multiplication::cells_are_there;
use crate::multiplication::multiply_op;
use crate::multiplication::product;
use crate::percentage::as_percentage;
use crate::percentage::base_from_result_rate;
use crate::percentage::number_of;
use crate::percentage::perc_num_is_what_perc_off_num;
use crate::percentage::perc_num_is_what_perc_on_num;
use crate::percentage::perc_num_is_xperc_off_what;
use crate::percentage::perc_num_is_xperc_on_what;
use crate::percentage::percentage_find_base_from_result_rate;
use crate::percentage::percentage_find_rate_from_result_base;
use crate::percentage::percentage_operator;
use crate::percentage::rate_from_result_base;
use crate::percentage::what_perc_off;
use crate::percentage::what_perc_on;
use crate::percentage::xperc_off_what;
use crate::percentage::xperc_on_what;
use crate::power::decimal_power;
use crate::power::pow;
use crate::subtraction::difference;
use crate::subtraction::sub_op;
use crate::token::flagged;
use crate::token::flagged_for;
use crate::token::OperatorTokenType;
use crate::token::Token;
use crate::units::UnitOutput;
use crate::units::UnitView;
use crate::value::amount;
use crate::value::group_views;
use crate::value::results_view;
use crate::value::view_of_result;
use crate::value::well_formed;
use crate::value::CalcResult;
use crate::value::CalcResultType;
use crate::value::MatrixData;
use crate::value::MatrixView;
use crate::value::ResultView;
use crate::value::ValueView;
use vstd::prelude::*;

verus! {

/// `-12`, `-12km`, `-50%`
pub open spec fn negated(r: ResultView) -> Option<ResultView> {
    match r.typ {
        ValueView::Number(n) => Some(
            ResultView { typ: ValueView::Number(n.neg()), index: r.index, index2: None },
        ),
        ValueView::Quantity(n, u) => Some(
            ResultView { typ: ValueView::Quantity(n.neg(), u), index: r.index, index2: None },
        ),
        ValueView::Percentage(n) => Some(
            ResultView { typ: ValueView::Percentage(n.neg()), index: r.index, index2: None },
        ),
        _ => None,
    }
}

pub fn unary_minus_op(lhs: &CalcResult) -> (r: Option<CalcResult>)
    ensures
        view_of_result(r) == negated(lhs@),
{
    broadcast use group_views;

    match &lhs.typ {
        CalcResultType::Number(n) => {
            Some(CalcResult::new(CalcResultType::Number(n.neg()), lhs.index_into_tokens))
        },
        CalcResultType::Quantity(n, u) => {
            Some(
                CalcResult::new(
                    CalcResultType::Quantity(n.neg(), u.clone()),
                    lhs.index_into_tokens,
                ),
            )
        },
        CalcResultType::Percentage(n) => {
            Some(CalcResult::new(CalcResultType::Percentage(n.neg()), lhs.index_into_tokens))
        },
        _ => None,
    }
}

/// `2^3`, `2m^3`: the exponent is the integer part of a number.
pub open spec fn raised(l: ResultView, r: ResultView) -> Option<ResultView> {
    match (l.typ, r.typ) {
        (ValueView::Number(a), ValueView::Number(b)) => match b.to_i64() {
            Some(p) => number_of(decimal_power(a, p as int)),
            None => None,
        },
        (ValueView::Quantity(a, u), ValueView::Number(b)) => match b.to_i64() {
            Some(p) => match u.power(p as int) {
                Some(u) => same_unit_of(decimal_power(a, p as int), u),
                None => None,
            },
            None => None,
        },
        _ => None,
    }
}

/// The division of one by the positive power, for a negative exponent.
pub open spec fn power_division(
    l: ResultView,
    r: ResultView,
) -> Option<(DecimalView, DecimalView)> {
    match (amount(l.typ), r.typ) {
        (Some(a), ValueView::Number(b)) => match b.to_i64() {
            Some(p) => match decimal_power(a, -p) {
                Some(power) if p < 0 => Some((DecimalView::integer(1), power)),
                _ => None,
            },
            None => None,
        },
        _ => None,
    }
}

pub fn pow_op(lhs: &CalcResult, rhs: &CalcResult) -> (r: Option<CalcResult>)
    ensures
        view_of_result(r) == raised(lhs@, rhs@),
        not_rounded(power_division(lhs@, rhs@)),
{
    broadcast use group_views;

    proof {
        lemma_not_rounded(power_division(lhs@, rhs@));
    }
    match (&lhs.typ, &rhs.typ) {
        (CalcResultType::Number(a), CalcResultType::Number(b)) => {
            // 2^3
            let p: i64 = b.to_i64()?;
            Some(CalcResult::new(CalcResultType::Number(pow(*a, p)?), 0))
        },
        (CalcResultType::Quantity(a, u), CalcResultType::Number(b)) => {
            // 2m^3
            let p: i64 = b.to_i64()?;
            let num = pow(*a, p)?;
            Some(CalcResult::new(CalcResultType::Quantity(num, u.pow(p)?), 0))
        },
        _ => None,
    }
}

/// A number that a unit follows. It is held in base units; where the dimensions of the unit
/// cancel out, as in `km/m`, it stays a number.
pub open spec fn with_unit(
    num: DecimalView,
    unit: UnitView,
    num_index: usize,
    unit_index: usize,
) -> Option<ResultView> {
    match unit.normalized(num) {
        Some(n) => if unit.is_unitless() {
            Some(ResultView { typ: ValueView::Number(n), index: num_index, index2: None })
        } else {
            Some(
                ResultView {
                    typ: ValueView::Quantity(n, unit),
                    index: num_index,
                    index2: Some(unit_index),
                },
            )
        },
        None => None,
    }
}

pub fn unit_conversion(
    num: &Decimal,
    target_unit: &UnitOutput,
    operand_token_index: usize,
    unit_token_index: usize,
) -> (r: Option<CalcResult>)
    ensures
        view_of_result(r) == with_unit(
            num@,
            target_unit@,
            operand_token_index,
            unit_token_index,
        ),
{
    broadcast use group_views;

    let norm = target_unit.normalize(num)?;
    if target_unit.is_unitless() {
        Some(CalcResult::new(CalcResultType::Number(norm), operand_token_index))
    } else {
        Some(
            CalcResult::new2(
                CalcResultType::Quantity(norm, target_unit.clone()),
                operand_token_index,
                unit_token_index,
            ),
        )
    }
}

/// `5km in m`: the quantity keeps its size, in base units, and takes on the unit; a matrix is
/// converted cell by cell.
pub open spec fn converted(l: ResultView, r: ResultView) -> Option<ResultView>
    decreases l,
{
    match (l.typ, r.typ) {
        (ValueView::Quantity(a, u), ValueView::Unit(v)) => if u.dimensions == v.dimensions {
            same_unit_of(Some(a), v)
        } else {
            None
        },
        (ValueView::Matrix(m), ValueView::Unit(_)) => matrix_of(
            converted_cells(m, r),
            m.rows,
            m.cols,
        ),
        _ => None,
    }
}

pub open spec fn converted_cells(m: MatrixView, r: ResultView) -> Seq<Option<ResultView>>
    decreases m,
{
    Seq::new(
        m.cells.len(),
        |i: int|
            if 0 <= i < m.cells.len() {
                converted(m.cells[i], r)
            } else {
                None
            },
    )
}

fn convert_op(lhs: &CalcResult, rhs: &CalcResult) -> (r: Option<CalcResult>)
    ensures
        view_of_result(r) == converted(lhs@, rhs@),
    decreases lhs,
{
    broadcast use group_views;

    match (&lhs.typ, &rhs.typ) {
        (CalcResultType::Quantity(a, u), CalcResultType::Unit(v)) => {
            if *u == *v {
                Some(CalcResult::new(CalcResultType::Quantity(*a, v.clone()), 0))
            } else {
                None
            }
        },
        (CalcResultType::Matrix(mat), CalcResultType::Unit(_)) => {
            let ghost answers = converted_cells(mat@, rhs@);
            let mut cells: Vec<CalcResult> = Vec::new();
            let mut i: usize = 0;
            while i < mat.cells.len()
                invariant
                    i <= mat.cells.len(),
                    lhs.typ == CalcResultType::Matrix(*mat),
                    converted(lhs@, rhs@) == matrix_of(answers, mat@.rows, mat@.cols),
                    answers.len() == mat.cells.len(),
                    forall|j: int|
                        0 <= j < answers.len() ==> #[trigger] answers[j] == converted(
                            mat@.cells[j],
                            rhs@,
                        ),
                    cells.len() == i,
                    forall|j: int| 0 <= j < i ==> #[trigger] answers[j] == Some(cells@[j]@),
                decreases mat.cells.len() - i,
            {
                match convert_op(&mat.cells[i], rhs) {
                    Some(cell) => {
                        cells.push(cell);
                    },
                    None => {
                        assert(answers[i as int] is None);
                        return None;
                    },
                }
                i = i + 1;
            }
            proof {
                lemma_cells_are_all(cells@, answers);
            }
            Some(
                CalcResult::new(
                    CalcResultType::Matrix(MatrixData::new(cells, mat.row_count, mat.col_count)),
                    0,
                ),
            )
        },
        _ => None,
    }
}

pub open spec fn is_unary(op: OperatorTokenType) -> bool {
    op is UnaryMinus || op is UnaryPlus || op is Perc || op is BinNot
}

/// What an operator makes of the value before it.
pub open spec fn unary(op: OperatorTokenType, top: ResultView, op_index: usize) -> Option<
    ResultView,
> {
    match op {
        OperatorTokenType::UnaryPlus => Some(top),
        OperatorTokenType::UnaryMinus => negated(top),
        OperatorTokenType::Perc => as_percentage(top, op_index),
        OperatorTokenType::BinNot => complement(top),
        _ => None,
    }
}

pub fn unary_operation(op: &OperatorTokenType, top: &CalcResult, op_token_index: usize) -> (r:
    Option<CalcResult>)
    ensures
        view_of_result(r) == unary(*op, top@, op_token_index),
{
    match op {
        OperatorTokenType::UnaryPlus => Some(top.clone()),
        OperatorTokenType::UnaryMinus => unary_minus_op(top),
        OperatorTokenType::Perc => percentage_operator(top, op_token_index),
        OperatorTokenType::BinNot => bitwise_not(top),
        _ => None,
    }
}

pub open spec fn is_binary(op: OperatorTokenType) -> bool {
    match op {
        OperatorTokenType::Mult => true,
        OperatorTokenType::Div => true,
        OperatorTokenType::Add => true,
        OperatorTokenType::Sub => true,
        OperatorTokenType::BinAnd => true,
        OperatorTokenType::BinOr => true,
        OperatorTokenType::BinXor => true,
        OperatorTokenType::Pow => true,
        OperatorTokenType::ShiftLeft => true,
        OperatorTokenType::ShiftRight => true,
        OperatorTokenType::Percentage_Find_Base_From_Result_Increase_X => true,
        OperatorTokenType::Percentage_Find_Base_From_X_Icrease_Result => true,
        OperatorTokenType::Percentage_Find_Base_From_Icrease_X_Result => true,
        OperatorTokenType::Percentage_Find_Incr_Rate_From_Result_X_Base => true,
        OperatorTokenType::Percentage_Find_Base_From_Result_Decrease_X => true,
        OperatorTokenType::Percentage_Find_Base_From_X_Decrease_Result => true,
        OperatorTokenType::Percentage_Find_Base_From_Decrease_X_Result => true,
        OperatorTokenType::Percentage_Find_Decr_Rate_From_Result_X_Base => true,
        OperatorTokenType::Percentage_Find_Rate_From_Result_Base => true,
        OperatorTokenType::Percentage_Find_Base_From_Result_Rate => true,
        OperatorTokenType::UnitConverter => true,
        _ => false,
    }
}

/// What an operator makes of the two values before it.
pub open spec fn binary(op: OperatorTokenType, l: ResultView, r: ResultView) -> Option<ResultView> {
    match op {
        OperatorTokenType::Mult => product(l, r),
        OperatorTokenType::Div => quotient(l, r),
        OperatorTokenType::Add => sum(l, r),
        OperatorTokenType::Sub => difference(l, r),
        OperatorTokenType::BinAnd => conjunction(l, r),
        OperatorTokenType::BinOr => disjunction(l, r),
        OperatorTokenType::BinXor => exclusive_or(l, r),
        OperatorTokenType::Pow => raised(l, r),
        OperatorTokenType::ShiftLeft => shifted_left(l, r),
        OperatorTokenType::ShiftRight => shifted_right(l, r),
        OperatorTokenType::Percentage_Find_Base_From_Result_Increase_X => xperc_on_what(l, r),
        OperatorTokenType::Percentage_Find_Base_From_X_Icrease_Result => xperc_on_what(r, l),
        OperatorTokenType::Percentage_Find_Base_From_Icrease_X_Result => xperc_on_what(r, l),
        OperatorTokenType::Percentage_Find_Incr_Rate_From_Result_X_Base => what_perc_on(l, r),
        OperatorTokenType::Percentage_Find_Base_From_Result_Decrease_X => xperc_off_what(l, r),
        OperatorTokenType::Percentage_Find_Base_From_X_Decrease_Result => xperc_off_what(r, l),
        OperatorTokenType::Percentage_Find_Base_From_Decrease_X_Result => xperc_off_what(r, l),
        OperatorTokenType::Percentage_Find_Decr_Rate_From_Result_X_Base => what_perc_off(l, r),
        OperatorTokenType::Percentage_Find_Rate_From_Result_Base => rate_from_result_base(l, r),
        OperatorTokenType::Percentage_Find_Base_From_Result_Rate => base_from_result_rate(l, r),
        OperatorTokenType::UnitConverter => converted(l, r),
        _ => None,
    }
}

pub fn binary_operation(op: &OperatorTokenType, lhs: &CalcResult, rhs: &CalcResult) -> (r: Option<
    CalcResult,
>)
    requires
        is_binary(*op),
        *op is Mult ==> cells_are_there(lhs@, rhs@),
    ensures
        view_of_result(r) == binary(*op, lhs@, rhs@),
{
    match op {
        OperatorTokenType::Mult => multiply_op(lhs, rhs),
        OperatorTokenType::Div => divide_op(lhs, rhs),
        OperatorTokenType::Add => add_op(lhs, rhs),
        OperatorTokenType::Sub => sub_op(lhs, rhs),
        OperatorTokenType::BinAnd => bitwise_and_op(lhs, rhs),
        OperatorTokenType::BinOr => bitwise_or_op(lhs, rhs),
        OperatorTokenType::BinXor => bitwise_xor_op(lhs, rhs),
        OperatorTokenType::Pow => pow_op(lhs, rhs),
        OperatorTokenType::ShiftLeft => bitwise_shift_left(lhs, rhs),
        OperatorTokenType::ShiftRight => bitwise_shift_right(lhs, rhs),
        OperatorTokenType::Percentage_Find_Base_From_Result_Increase_X => {
            perc_num_is_xperc_on_what(lhs, rhs)
        },
        OperatorTokenType::Percentage_Find_Base_From_X_Icrease_Result => {
            perc_num_is_xperc_on_what(rhs, lhs)
        },
        OperatorTokenType::Percentage_Find_Base_From_Icrease_X_Result => {
            perc_num_is_xperc_on_what(rhs, lhs)
        },
        OperatorTokenType::Percentage_Find_Incr_Rate_From_Result_X_Base => {
            perc_num_is_what_perc_on_num(lhs, rhs)
        },
        OperatorTokenType::Percentage_Find_Base_From_Result_Decrease_X => {
            perc_num_is_xperc_off_what(lhs, rhs)
        },
        OperatorTokenType::Percentage_Find_Base_From_X_Decrease_Result => {
            perc_num_is_xperc_off_what(rhs, lhs)
        },
        OperatorTokenType::Percentage_Find_Base_From_Decrease_X_Result => {
            perc_num_is_xperc_off_what(rhs, lhs)
        },
        OperatorTokenType::Percentage_Find_Decr_Rate_From_Result_X_Base => {
            perc_num_is_what_perc_off_num(lhs, rhs)
        },
        OperatorTokenType::Percentage_Find_Rate_From_Result_Base => {
            percentage_find_rate_from_result_base(lhs, rhs)
        },
        OperatorTokenType::Percentage_Find_Base_From_Result_Rate => {
            percentage_find_base_from_result_rate(lhs, rhs)
        },
        OperatorTokenType::UnitConverter => convert_op(lhs, rhs),
        _ => None,
    }
}

/// What an operator makes of the stack. Operators that have no operands leave it as it is;
/// brackets and parentheses are never in place here.
pub open spec fn applied(stack: Seq<ResultView>, op: OperatorTokenType, op_index: usize) -> Option<
    Seq<ResultView>,
> {
    let n = stack.len();
    if is_binary(op) {
        if n < 2 {
            None
        } else {
            match binary(op, stack[n - 2], stack[n - 1]) {
                Some(result) => Some(stack.take(n - 2).push(result)),
                None => None,
            }
        }
    } else if is_unary(op) {
        if n < 1 {
            None
        } else {
            match unary(op, stack[n - 1], op_index) {
                Some(result) => Some(stack.take(n - 1).push(result)),
                None => None,
            }
        }
    } else {
        match op {
            OperatorTokenType::Matrix { row_count, col_count } => if n < row_count * col_count {
                None
            } else {
                Some(
                    stack.take(n - row_count * col_count).push(
                        ResultView {
                            typ: ValueView::Matrix(
                                MatrixView {
                                    cells: stack.skip(n - row_count * col_count),
                                    rows: row_count as nat,
                                    cols: col_count as nat,
                                },
                            ),
                            index: op_index,
                            index2: None,
                        },
                    ),
                )
            },
            OperatorTokenType::Semicolon => Some(stack),
            OperatorTokenType::Comma => Some(stack),
            OperatorTokenType::PercentageIs => Some(stack),
            _ => None,
        }
    }
}

/// The tokens after an operator: where two operands do not fit an operator, the tokens of all
/// three are marked as wrong.
pub open spec fn tokens_after(
    tokens: Seq<Token>,
    stack: Seq<ResultView>,
    op: OperatorTokenType,
    op_index: usize,
) -> Seq<Token> {
    let n = stack.len();
    if is_binary(op) && n >= 2 && applied(stack, op, op_index) is None {
        flagged(flagged_for(flagged_for(tokens, stack[n - 2]), stack[n - 1]), op_index)
    } else {
        tokens
    }
}

pub open spec fn all_well_formed(stack: Seq<ResultView>) -> bool {
    forall|i: int| 0 <= i < stack.len() ==> well_formed(#[trigger] stack[i])
}

/// The cells of two matrices on top of the stack that are multiplied are there.
pub open spec fn can_be_applied(stack: Seq<ResultView>, op: OperatorTokenType) -> bool {
    op is Mult && stack.len() >= 2 ==> cells_are_there(
        stack[stack.len() - 2],
        stack[stack.len() - 1],
    )
}

/// Applies an operator to the stack. Assignments and function calls are not operators here.
pub fn apply_operation(
    tokens: &mut Vec<Token>,
    stack: &mut Vec<CalcResult>,
    op: &OperatorTokenType,
    op_token_index: usize,
) -> (r: bool)
    requires
        *op !is Assign,
        *op !is Fn,
        can_be_applied(results_view(old(stack)@), *op),
    ensures
        r == applied(results_view(old(stack)@), *op, op_token_index) is Some,
        r ==> Some(results_view(final(stack)@)) == applied(
            results_view(old(stack)@),
            *op,
            op_token_index,
        ),
        !r ==> final(stack)@ == old(stack)@,
        final(tokens)@ == tokens_after(
            old(tokens)@,
            results_view(old(stack)@),
            *op,
            op_token_index,
        ),
{
    broadcast use group_views;

    let ghost before = results_view(stack@);
    match op {
        OperatorTokenType::Mult
        | OperatorTokenType::Div
        | OperatorTokenType::Add
        | OperatorTokenType::Sub
        | OperatorTokenType::BinAnd
        | OperatorTokenType::BinOr
        | OperatorTokenType::BinXor
        | OperatorTokenType::Pow
        | OperatorTokenType::ShiftLeft
        | OperatorTokenType::ShiftRight
        | OperatorTokenType::Percentage_Find_Base_From_Result_Increase_X
        | OperatorTokenType::Percentage_Find_Base_From_X_Icrease_Result
        | OperatorTokenType::Percentage_Find_Base_From_Icrease_X_Result
        | OperatorTokenType::Percentage_Find_Incr_Rate_From_Result_X_Base
        | OperatorTokenType::Percentage_Find_Base_From_Result_Decrease_X
        | OperatorTokenType::Percentage_Find_Base_From_X_Decrease_Result
        | OperatorTokenType::Percentage_Find_Base_From_Decrease_X_Result
        | OperatorTokenType::Percentage_Find_Decr_Rate_From_Result_X_Base
        | OperatorTokenType::Percentage_Find_Rate_From_Result_Base
        | OperatorTokenType::Percentage_Find_Base_From_Result_Rate
        | OperatorTokenType::UnitConverter => {
            assert(is_binary(*op));
            let len: usize = stack.len();
            if len < 2 {
                return false;
            }
            let lhs = &stack[len - 2];
            let rhs = &stack[len - 1];
            match binary_operation(op, lhs, rhs) {
                Some(result) => {
                    stack.truncate(len - 2);
                    stack.push(result);
                    assert(results_view(stack@) =~= before.take(len - 2).push(result@));
                    true
                },
                None => {
                    lhs.set_token_error_flag(tokens);
                    rhs.set_token_error_flag(tokens);
                    Token::set_token_error_flag_by_index(op_token_index, tokens);
                    false
                },
            }
        },
        OperatorTokenType::UnaryMinus
        | OperatorTokenType::UnaryPlus
        | OperatorTokenType::Perc
        | OperatorTokenType::BinNot => {
            let len: usize = stack.len();
            if len < 1 {
                return false;
            }
            match unary_operation(op, &stack[len - 1], op_token_index) {
                Some(result) => {
                    stack.truncate(len - 1);
                    stack.push(result);
                    assert(results_view(stack@) =~= before.take(len - 1).push(result@));
                    true
                },
                None => false,
            }
        },
        OperatorTokenType::Matrix { row_count, col_count } => {
            let arg_count: usize = match row_count.checked_mul(*col_count) {
                Some(arg_count) => arg_count,
                None => {
                    assert(before.len() == stack.len() <= usize::MAX);
                    return false;
                },
            };
            let len: usize = stack.len();
            if len < arg_count {
                return false;
            }
            let args = stack.split_off(len - arg_count);
            assert(results_view(args@) =~= before.skip(len - arg_count));
            let result = CalcResult::new(
                CalcResultType::Matrix(MatrixData::new(args, *row_count, *col_count)),
                op_token_index,
            );
            stack.push(result);
            assert(results_view(stack@) =~= before.take(len - arg_count).push(result@));
            true
        },
        OperatorTokenType::Semicolon | OperatorTokenType::Comma | OperatorTokenType::PercentageIs => {
            true
        },
        _ => false,
    }
}

} // verus!
