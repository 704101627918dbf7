//! What each operator does with the values before it, and what becomes of the tokens.
use crate::addition::sum;
use crate::bitwise::complement;
use crate::bitwise::conjunction;
use crate::bitwise::disjunction;
use crate::bitwise::exclusive_or;
use crate::bitwise::shifted_left;
use crate::bitwise::shifted_right;
use crate::decimal::Decimal;
use crate::division::quotient;
use crate::evaluation::all_but_one_to_text;
use crate::evaluation::finished;
use crate::evaluation::resumed;
use crate::evaluation::run;
use crate::evaluation::step;
use crate::evaluation::unit_is_operand;
use crate::evaluation::EvaluationView;
use crate::evaluation::ProgressView;
use crate::evaluation::Step;
use crate::multiplication::product;
use crate::operation::applied;
use crate::operation::binary;
use crate::operation::converted;
use crate::operation::is_binary;
use crate::operation::is_unary;
use crate::operation::negated;
use crate::operation::raised;
use crate::operation::tokens_after;
use crate::operation::unary;
use crate::operation::with_unit;
use crate::percentage::as_percentage;
use crate::percentage::base_from_result_rate;
use crate::percentage::rate_from_result_base;
use crate::percentage::what_perc_off;
use crate::percentage::what_perc_on;
use crate::percentage::xperc_off_what;
use crate::percentage::xperc_on_what;
use crate::subtraction::difference;
use crate::token::flagged;
use crate::token::flagged_for;
use crate::token::turned_to_text;
use crate::token::OperatorTokenType;
use crate::token::ShuntingYardResult;
use crate::token::Token;
use crate::token::TokenType;
use crate::token::UnitTokenType;
use crate::token::Variable;
use crate::units::UnitOutput;
use crate::value::group_views;
use crate::value::ResultView;
use crate::value::ValueView;
use vstd::prelude::*;

verus! {

/// The operators between two values calculate: `l + r`, `l - r`, `l * r`, `l / r`, `l ^ r`,
/// the bitwise operations and conversions, each with its operands in that order.
pub proof fn law_operators_calculate(l: ResultView, r: ResultView)
    ensures
        binary(OperatorTokenType::Add, l, r) == sum(l, r),
        binary(OperatorTokenType::Sub, l, r) == difference(l, r),
        binary(OperatorTokenType::Mult, l, r) == product(l, r),
        binary(OperatorTokenType::Div, l, r) == quotient(l, r),
        binary(OperatorTokenType::Pow, l, r) == raised(l, r),
        binary(OperatorTokenType::BinAnd, l, r) == conjunction(l, r),
        binary(OperatorTokenType::BinOr, l, r) == disjunction(l, r),
        binary(OperatorTokenType::BinXor, l, r) == exclusive_or(l, r),
        binary(OperatorTokenType::ShiftLeft, l, r) == shifted_left(l, r),
        binary(OperatorTokenType::ShiftRight, l, r) == shifted_right(l, r),
        binary(OperatorTokenType::UnitConverter, l, r) == converted(l, r),
        is_binary(OperatorTokenType::Add) && is_binary(OperatorTokenType::Sub),
        is_binary(OperatorTokenType::Mult) && is_binary(OperatorTokenType::Div),
        is_binary(OperatorTokenType::Pow) && is_binary(OperatorTokenType::UnitConverter),
        is_binary(OperatorTokenType::BinAnd) && is_binary(OperatorTokenType::BinOr),
        is_binary(OperatorTokenType::BinXor),
        is_binary(OperatorTokenType::ShiftLeft) && is_binary(OperatorTokenType::ShiftRight),
{
}

/// The operators of questions about percentages ask them of their operands; which of the two
/// is the result, and which the percentage, depends on the order in the text.
pub proof fn law_operators_ask(l: ResultView, r: ResultView)
    ensures
        binary(OperatorTokenType::Percentage_Find_Base_From_Result_Increase_X, l, r)
            == xperc_on_what(l, r),
        binary(OperatorTokenType::Percentage_Find_Base_From_X_Icrease_Result, l, r)
            == xperc_on_what(r, l),
        binary(OperatorTokenType::Percentage_Find_Base_From_Icrease_X_Result, l, r)
            == xperc_on_what(r, l),
        binary(OperatorTokenType::Percentage_Find_Incr_Rate_From_Result_X_Base, l, r)
            == what_perc_on(l, r),
        binary(OperatorTokenType::Percentage_Find_Base_From_Result_Decrease_X, l, r)
            == xperc_off_what(l, r),
        binary(OperatorTokenType::Percentage_Find_Base_From_X_Decrease_Result, l, r)
            == xperc_off_what(r, l),
        binary(OperatorTokenType::Percentage_Find_Base_From_Decrease_X_Result, l, r)
            == xperc_off_what(r, l),
        binary(OperatorTokenType::Percentage_Find_Decr_Rate_From_Result_X_Base, l, r)
            == what_perc_off(l, r),
        binary(OperatorTokenType::Percentage_Find_Rate_From_Result_Base, l, r)
            == rate_from_result_base(l, r),
        binary(OperatorTokenType::Percentage_Find_Base_From_Result_Rate, l, r)
            == base_from_result_rate(l, r),
        is_binary(OperatorTokenType::Percentage_Find_Base_From_Result_Increase_X),
        is_binary(OperatorTokenType::Percentage_Find_Base_From_X_Icrease_Result),
        is_binary(OperatorTokenType::Percentage_Find_Base_From_Icrease_X_Result),
        is_binary(OperatorTokenType::Percentage_Find_Incr_Rate_From_Result_X_Base),
        is_binary(OperatorTokenType::Percentage_Find_Base_From_Result_Decrease_X),
        is_binary(OperatorTokenType::Percentage_Find_Base_From_X_Decrease_Result),
        is_binary(OperatorTokenType::Percentage_Find_Base_From_Decrease_X_Result),
        is_binary(OperatorTokenType::Percentage_Find_Decr_Rate_From_Result_X_Base),
        is_binary(OperatorTokenType::Percentage_Find_Rate_From_Result_Base),
        is_binary(OperatorTokenType::Percentage_Find_Base_From_Result_Rate),
{
}

/// The operators on one value: a plus leaves it, a minus negates it, a percent sign makes it
/// a percentage, and `NOT` flips its bits.
pub proof fn law_operators_on_one_value(x: ResultView, op_index: usize)
    ensures
        unary(OperatorTokenType::UnaryPlus, x, op_index) == Some(x),
        unary(OperatorTokenType::UnaryMinus, x, op_index) == negated(x),
        unary(OperatorTokenType::Perc, x, op_index) == as_percentage(x, op_index),
        unary(OperatorTokenType::BinNot, x, op_index) == complement(x),
        is_unary(OperatorTokenType::UnaryPlus) && is_unary(OperatorTokenType::UnaryMinus),
        is_unary(OperatorTokenType::Perc) && is_unary(OperatorTokenType::BinNot),
{
}

/// An operator puts its result in the place of its operands on top of the stack, and touches
/// nothing below them. Without enough operands it fails.
pub proof fn law_operators_replace_their_operands(
    stack: Seq<ResultView>,
    op: OperatorTokenType,
    op_index: usize,
    l: ResultView,
    r: ResultView,
)
    ensures
        is_binary(op) ==> applied(stack.push(l).push(r), op, op_index) == (match binary(op, l, r) {
            Some(x) => Some(stack.push(x)),
            None => None,
        }),
        is_unary(op) ==> applied(stack.push(r), op, op_index) == (match unary(op, r, op_index) {
            Some(x) => Some(stack.push(x)),
            None => None,
        }),
        is_binary(op) && stack.len() < 2 ==> applied(stack, op, op_index) is None,
        is_unary(op) && stack.len() < 1 ==> applied(stack, op, op_index) is None,
        op is Comma || op is Semicolon || op is PercentageIs ==> applied(stack, op, op_index)
            == Some(stack),
        op is ParenOpen || op is ParenClose || op is BracketOpen || op is BracketClose ==> applied(
            stack,
            op,
            op_index,
        ) is None,
{
    assert(stack.push(l).push(r).take(stack.len() as int) =~= stack);
    assert(stack.push(r).take(stack.len() as int) =~= stack);
}

/// A matrix takes its cells off the stack, in the order in which they were put there, and
/// stands for its own token.
pub proof fn law_matrices_take_their_cells(
    stack: Seq<ResultView>,
    cells: Seq<ResultView>,
    row_count: usize,
    col_count: usize,
    op_index: usize,
)
    requires
        cells.len() == row_count * col_count,
    ensures
        applied(
            stack + cells,
            OperatorTokenType::Matrix { row_count, col_count },
            op_index,
        ) matches Some(after) && {
            &&& after.len() == stack.len() + 1
            &&& forall|i: int| 0 <= i < stack.len() ==> #[trigger] after[i] == stack[i]
            &&& after.last().index == op_index
            &&& after.last().index2 is None
            &&& after.last().typ matches ValueView::Matrix(m) && m.cells == cells && m.rows
                == row_count && m.cols == col_count
        },
{
    let n = row_count * col_count;
    assert((stack + cells).skip(stack.len() as int) =~= cells);
}

/// A token is marked as wrong only where it stands for an operand, or is the operator, and
/// there are two operands that do not fit the operator.
pub proof fn law_no_other_tokens_are_marked(
    tokens: Seq<Token>,
    stack: Seq<ResultView>,
    op: OperatorTokenType,
    op_index: usize,
    i: int,
)
    requires
        0 <= i < tokens.len(),
    ensures
        ({
            let (n, after) = (stack.len(), tokens_after(tokens, stack, op, op_index));
            &&& after.len() == tokens.len()
            &&& after[i].typ == tokens[i].typ
            &&& !tokens[i].has_error && after[i].has_error ==> {
                &&& is_binary(op) && n >= 2
                &&& binary(op, stack[n - 2], stack[n - 1]) is None
                &&& i == op_index || i == stack[n - 2].index || i == stack[n - 1].index || Some(
                    i as usize,
                ) == stack[n - 2].index2 || Some(i as usize) == stack[n - 1].index2
            }
        }),
{
}

/// The token that comes next.
pub open spec fn next_is(
    e: EvaluationView,
    shunting: Seq<ShuntingYardResult>,
    typ: TokenType,
    index: usize,
) -> bool {
    e.position < shunting.len() && shunting[e.position as int] == (ShuntingYardResult {
        typ,
        index_into_tokens: index,
    })
}

/// The evaluation goes on behind the next token, with a value put on the stack.
pub open spec fn goes_on_with(e: EvaluationView, next: EvaluationView, x: ResultView) -> bool {
    &&& next.stack == e.stack.push(x)
    &&& next.position == e.position + 1
    &&& next.last == e.last
    &&& next.assignment == e.assignment
    &&& next.there_was_unit_conversion == e.there_was_unit_conversion
}

/// A number in the text is that number; a variable, or a reference to a line, has the value
/// that was stored for it. Both stand for their own token, and change no token.
pub proof fn law_numbers_and_variables_are_their_values(
    e: EvaluationView,
    tokens: Seq<Token>,
    shunting: Seq<ShuntingYardResult>,
    variables: Seq<Option<Variable>>,
    index: usize,
    var_index: usize,
)
    ensures
        forall|num: Decimal| #[trigger]
            next_is(e, shunting, TokenType::NumberLiteral(num), index) ==> {
                let (taken, after) = step(e, tokens, shunting, variables);
                &&& after == tokens
                &&& taken matches Step::Next(next) && goes_on_with(
                    e,
                    next,
                    ResultView { typ: ValueView::Number(num@), index, index2: None },
                )
            },
        (next_is(e, shunting, TokenType::Variable { var_index }, index) || next_is(
            e,
            shunting,
            TokenType::LineReference { var_index },
            index,
        )) && var_index < variables.len() ==> (variables[var_index as int] matches Some(v) ==> {
            let (taken, after) = step(e, tokens, shunting, variables);
            &&& after == tokens
            &&& match v.value {
                Ok(value) => taken matches Step::Next(next) && goes_on_with(
                    e,
                    next,
                    ResultView { typ: value@.typ, index, index2: None },
                ),
                Err(_) => taken is Failed,
            }
        }),
{
    broadcast use group_views;

}

/// A unit behind a number takes the number off the stack and puts the quantity there, which
/// is then the result to prefer; without a number before it, the unit is marked as wrong. A
/// unit alone is a value where a conversion or a division follows it, and text elsewhere.
pub proof fn law_units_follow_numbers(
    e: EvaluationView,
    tokens: Seq<Token>,
    shunting: Seq<ShuntingYardResult>,
    variables: Seq<Option<Variable>>,
    unit: UnitOutput,
    index: usize,
)
    ensures
        next_is(e, shunting, TokenType::Unit(UnitTokenType::ApplyToPrevToken, unit), index) ==> {
            let (taken, after) = step(e, tokens, shunting, variables);
            let n = e.stack.len();
            let x = if n > 0 {
                match e.stack[n - 1].typ {
                    ValueView::Number(num) => with_unit(num, unit@, e.stack[n - 1].index, index),
                    _ => None,
                }
            } else {
                None
            };
            match x {
                Some(x) => after == tokens && (taken matches Step::Next(next) && next.stack
                    == e.stack.take(n - 1).push(x) && next.last == Some((n - 1) as usize)
                    && next.position == e.position + 1),
                None => taken is Failed && after.len() == tokens.len() && forall|i: int|
                    0 <= i < tokens.len() ==> (#[trigger] after[i]).has_error == (
                    tokens[i].has_error || i == index) && after[i].typ == tokens[i].typ,
            }
        },
        next_is(e, shunting, TokenType::Unit(UnitTokenType::StandInItself, unit), index) ==> {
            let (taken, after) = step(e, tokens, shunting, variables);
            if unit_is_operand(shunting, e.position as int) {
                after == tokens && (taken matches Step::Next(next) && goes_on_with(
                    e,
                    next,
                    ResultView { typ: ValueView::Unit(unit@), index, index2: None },
                ))
            } else {
                &&& taken matches Step::Next(next) && next.stack == e.stack && next.last == e.last
                    && next.position == e.position + 1
                &&& after.len() == tokens.len()
                &&& forall|i: int|
                    0 <= i < tokens.len() ==> (#[trigger] after[i]).has_error
                        == tokens[i].has_error && after[i].typ == (if i == index {
                        TokenType::StringLiteral
                    } else {
                        tokens[i].typ
                    })
            }
        },
        unit_is_operand(shunting, e.position as int) <==> e.position + 1 < shunting.len() && (
        shunting[(e.position + 1) as int].typ == TokenType::Operator(OperatorTokenType::UnitConverter)
            || shunting[(e.position + 1) as int].typ == TokenType::Operator(OperatorTokenType::Div)),
{
}

/// An operator takes its operands from the stack and leaves a result to prefer; where it
/// fails, the evaluation fails. An assignment is only noted, and a function is left to the
/// caller, with the number of its arguments.
pub proof fn law_operators_are_taken(
    e: EvaluationView,
    tokens: Seq<Token>,
    shunting: Seq<ShuntingYardResult>,
    variables: Seq<Option<Variable>>,
    op: OperatorTokenType,
    index: usize,
)
    requires
        next_is(e, shunting, TokenType::Operator(op), index),
    ensures
        op !is Assign && op !is Fn ==> {
            let (taken, after) = step(e, tokens, shunting, variables);
            &&& after == tokens_after(tokens, e.stack, op, index)
            &&& match applied(e.stack, op, index) {
                Some(stack) => taken matches Step::Next(next) && next.stack == stack && next.last
                    == (if stack.len() > 0 {
                    Some((stack.len() - 1) as usize)
                } else {
                    e.last
                }) && next.position == e.position + 1 && next.assignment == e.assignment
                    && next.there_was_unit_conversion == (
                e.there_was_unit_conversion || op is UnitConverter),
                None => taken is Failed,
            }
        },
        op is Assign ==> (step(e, tokens, shunting, variables) matches (Step::Next(next), after)
            && after == tokens && next.assignment && next.stack == e.stack && next.last == e.last
            && next.position == e.position + 1 && next.there_was_unit_conversion
            == e.there_was_unit_conversion),
        op matches OperatorTokenType::Fn { arg_count, typ } ==> (step(
            e,
            tokens,
            shunting,
            variables,
        ) matches (Step::Call(next, count, called, at), after) && after == tokens && count
            == arg_count && called == typ && at == index && next.stack == e.stack && next.last
            == e.last && next.position == e.position + 1),
{
}

/// A function that failed ends the evaluation; one that succeeded leaves the value on top of
/// the stack as the result to prefer. At the end of the tokens it is the answer.
pub proof fn law_functions_leave_their_values(
    e: EvaluationView,
    tokens: Seq<Token>,
    shunting: Seq<ShuntingYardResult>,
    variables: Seq<Option<Variable>>,
)
    ensures
        resumed(e, false, tokens, shunting, variables) == (
            ProgressView::Finished(Err(())),
            tokens,
        ),
        e.position >= shunting.len() && 0 < e.stack.len() <= usize::MAX ==> (resumed(
            e,
            true,
            tokens,
            shunting,
            variables,
        ).0 matches ProgressView::Finished(Ok(Some(answer))) && answer.result == e.stack.last()
            && answer.there_was_operation && answer.assignment == e.assignment
            && answer.there_was_unit_conversion == e.there_was_unit_conversion),
        0 < e.stack.len() ==> resumed(e, true, tokens, shunting, variables) == run(
            EvaluationView {
                stack: e.stack,
                there_was_unit_conversion: e.there_was_unit_conversion,
                assignment: e.assignment,
                last: Some((e.stack.len() - 1) as usize),
                position: e.position,
            },
            tokens,
            shunting,
            variables,
        ),
        e.stack.len() == 0 ==> resumed(e, true, tokens, shunting, variables) == run(
            e,
            tokens,
            shunting,
            variables,
        ),
{
}

/// An evaluation starts with nothing, takes one token after the other, and ends with the last
/// one, with one that fails, or with a function to be called.
pub proof fn law_tokens_are_taken_in_order(
    e: EvaluationView,
    tokens: Seq<Token>,
    shunting: Seq<ShuntingYardResult>,
    variables: Seq<Option<Variable>>,
)
    ensures
        EvaluationView::start().stack.len() == 0,
        EvaluationView::start().position == 0,
        EvaluationView::start().last is None,
        !EvaluationView::start().assignment,
        !EvaluationView::start().there_was_unit_conversion,
        e.position >= shunting.len() ==> run(e, tokens, shunting, variables) == finished(e, tokens),
        e.position < shunting.len() ==> ({
            let (taken, after) = step(e, tokens, shunting, variables);
            match taken {
                Step::Next(next) => run(e, tokens, shunting, variables) == run(
                    next,
                    after,
                    shunting,
                    variables,
                ),
                Step::Failed => run(e, tokens, shunting, variables) == (
                    ProgressView::Finished(Err(())),
                    after,
                ),
                Step::Call(evaluation, arg_count, typ, op_token_index) => run(
                    e,
                    tokens,
                    shunting,
                    variables,
                ) == (
                    ProgressView::Call { evaluation, arg_count, typ, op_token_index },
                    after,
                ),
            }
        }),
{
}

/// At the end of the tokens the result of the last operation is the answer, without an
/// operation the last value, and without a value there is none. The answer tells what was
/// seen on the way.
pub proof fn law_the_last_result_is_the_answer(e: EvaluationView, tokens: Seq<Token>)
    ensures
        e.last is None && e.stack.len() == 0 ==> finished(e, tokens).0 == ProgressView::Finished(
            Ok(None),
        ),
        e.last is Some || e.stack.len() > 0 ==> (finished(e, tokens).0 matches
            ProgressView::Finished(Ok(Some(answer))) && answer.assignment == e.assignment
            && answer.there_was_unit_conversion == e.there_was_unit_conversion
            && answer.there_was_operation == (e.last is Some) && answer.result == (match e.last {
            Some(last) => e.stack[last as int],
            None => e.stack[e.stack.len() - 1],
        })),
{
}

/// Marking marks one token, or the one or two that a value stands for, and no others; turning
/// a token into text changes the type of that token alone.
pub proof fn law_marking_marks_the_token(
    tokens: Seq<Token>,
    index: usize,
    r: ResultView,
    i: int,
)
    requires
        0 <= i < tokens.len(),
    ensures
        flagged(tokens, index).len() == tokens.len(),
        flagged(tokens, index)[i].typ == tokens[i].typ,
        flagged(tokens, index)[i].has_error <==> tokens[i].has_error || i == index,
        flagged_for(tokens, r).len() == tokens.len(),
        flagged_for(tokens, r)[i].typ == tokens[i].typ,
        flagged_for(tokens, r)[i].has_error <==> tokens[i].has_error || i == r.index || (
        r.index2 matches Some(index2) && i == index2),
        turned_to_text(tokens, index).len() == tokens.len(),
        turned_to_text(tokens, index)[i].has_error == tokens[i].has_error,
        turned_to_text(tokens, index)[i].typ == (if i == index {
            TokenType::StringLiteral
        } else {
            tokens[i].typ
        }),
{
}

/// At the end, the result of the last operation is the answer. The tokens of all other values
/// on the stack become text, and no other tokens; nothing is marked as wrong.
pub proof fn law_answers_leave_other_tokens(e: EvaluationView, tokens: Seq<Token>, i: int)
    requires
        0 <= i < tokens.len(),
    ensures
        ({
            let after = finished(e, tokens).1;
            &&& after.len() == tokens.len()
            &&& after[i].has_error == tokens[i].has_error
            &&& after[i].typ == (if e.last is Some && exists|k: int|
                0 <= k < e.stack.len() && k != e.last->Some_0 && (#[trigger] e.stack[k]).index
                    == i {
                TokenType::StringLiteral
            } else {
                tokens[i].typ
            })
        }),
{
    if let Some(last) = e.last {
        lemma_text_of_others(tokens, e.stack, last as int, e.stack.len(), i);
    }
}

proof fn lemma_text_of_others(
    tokens: Seq<Token>,
    stack: Seq<ResultView>,
    kept: int,
    n: nat,
    i: int,
)
    requires
        0 <= i < tokens.len(),
        n <= stack.len(),
    ensures
        ({
            let after = all_but_one_to_text(tokens, stack, kept, n);
            &&& after.len() == tokens.len()
            &&& after[i].has_error == tokens[i].has_error
            &&& after[i].typ == (if exists|k: int|
                0 <= k < n && k != kept && (#[trigger] stack[k]).index == i {
                TokenType::StringLiteral
            } else {
                tokens[i].typ
            })
        }),
    decreases n,
{
    if n > 0 {
        lemma_text_of_others(tokens, stack, kept, (n - 1) as nat, i);
        if n - 1 != kept && stack[n - 1].index == i {
            assert(0 <= n - 1 < n);
        }
    }
}

} // verus!
