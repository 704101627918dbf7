//! Evaluation of expressions in postfix order.
use crate::operation::all_well_formed;
use crate::operation::applied;
use crate::operation::apply_operation;
use crate::operation::binary;
use crate::operation::can_be_applied;
use crate::operation::is_binary;
use crate::operation::is_unary;
use crate::operation::tokens_after;
use crate::operation::unit_conversion;
use crate::operation::with_unit;
use crate::shape::law_operators_keep_the_stack_well_formed;
use crate::token::flagged;
use crate::token::turned_to_text;
use crate::token::FnType;
use crate::token::OperatorTokenType;
use crate::token::ShuntingYardResult;
use crate::token::Token;
use crate::token::TokenType;
use crate::token::UnitTokenType;
use crate::token::Variable;
use crate::value::group_views;
use crate::value::results_view;
use crate::value::well_formed;
use crate::value::CalcResult;
use crate::value::CalcResultType;
use crate::value::ResultView;
use crate::value::ValueView;
use vstd::prelude::*;

verus! {

/// The value of an expression and what was seen on the way to it.
#[derive(Debug)]
pub struct EvaluationResult {
    pub there_was_unit_conversion: bool,
    pub there_was_operation: bool,
    pub assignment: bool,
    pub result: CalcResult,
}

/// An evaluation that has taken the first `position` tokens.
#[derive(Debug)]
pub struct Evaluation {
    pub stack: Vec<CalcResult>,
    pub there_was_unit_conversion: bool,
    pub assignment: bool,
    pub last_success_operation_result_index: Option<usize>,
    pub position: usize,
}

/// How far an evaluation has come: to its end, or to a function that is to be called. The
/// caller takes the arguments off the stack, puts the function's value on it, and resumes
/// the evaluation.
#[derive(Debug)]
pub enum Progress {
    Finished(Result<Option<EvaluationResult>, ()>),
    Call { evaluation: Evaluation, arg_count: usize, typ: FnType, op_token_index: usize },
}

/// The model of an [`EvaluationResult`].
pub struct AnswerView {
    pub there_was_unit_conversion: bool,
    pub there_was_operation: bool,
    pub assignment: bool,
    pub result: ResultView,
}

/// The model of an [`Evaluation`].
#[verifier::ext_equal]
pub struct EvaluationView {
    pub stack: Seq<ResultView>,
    pub there_was_unit_conversion: bool,
    pub assignment: bool,
    pub last: Option<usize>,
    pub position: nat,
}

/// The model of a [`Progress`].
pub enum ProgressView {
    Finished(Result<Option<AnswerView>, ()>),
    Call { evaluation: EvaluationView, arg_count: usize, typ: FnType, op_token_index: usize },
}

impl View for EvaluationResult {
    type V = AnswerView;

    open spec fn view(&self) -> AnswerView {
        AnswerView {
            there_was_unit_conversion: self.there_was_unit_conversion,
            there_was_operation: self.there_was_operation,
            assignment: self.assignment,
            result: self.result@,
        }
    }
}

impl View for Evaluation {
    type V = EvaluationView;

    open spec fn view(&self) -> EvaluationView {
        EvaluationView {
            stack: results_view(self.stack@),
            there_was_unit_conversion: self.there_was_unit_conversion,
            assignment: self.assignment,
            last: self.last_success_operation_result_index,
            position: self.position as nat,
        }
    }
}

impl View for Progress {
    type V = ProgressView;

    open spec fn view(&self) -> ProgressView {
        match self {
            Progress::Finished(Ok(Some(answer))) => ProgressView::Finished(Ok(Some(answer@))),
            Progress::Finished(Ok(None)) => ProgressView::Finished(Ok(None)),
            Progress::Finished(Err(e)) => ProgressView::Finished(Err(*e)),
            Progress::Call { evaluation, arg_count, typ, op_token_index } => ProgressView::Call {
                evaluation: evaluation@,
                arg_count: *arg_count,
                typ: *typ,
                op_token_index: *op_token_index,
            },
        }
    }
}

impl EvaluationView {
    /// Nothing has been taken yet.
    pub open spec fn start() -> EvaluationView {
        EvaluationView {
            stack: Seq::empty(),
            there_was_unit_conversion: false,
            assignment: false,
            last: None,
            position: 0,
        }
    }

    /// The next token has been taken.
    pub open spec fn advanced(self) -> EvaluationView {
        EvaluationView { position: self.position + 1, ..self }
    }

    /// The next token has put a value on the stack.
    pub open spec fn pushed(self, typ: ValueView, index: usize) -> EvaluationView {
        EvaluationView {
            stack: self.stack.push(ResultView { typ, index, index2: None }),
            ..self.advanced()
        }
    }

    /// An operation has succeeded and left this stack behind: the value on top is the result
    /// to prefer.
    pub open spec fn operated(self, stack: Seq<ResultView>) -> EvaluationView {
        EvaluationView {
            stack,
            last: if stack.len() > 0 {
                Some((stack.len() - 1) as usize)
            } else {
                self.last
            },
            ..self
        }
    }
}

/// What the next token does.
pub enum Step {
    Next(EvaluationView),
    Failed,
    Call(EvaluationView, usize, FnType, usize),
}

/// A unit alone is a value only where it is about to be converted to or divided by.
pub open spec fn unit_is_operand(shunting: Seq<ShuntingYardResult>, position: int) -> bool {
    position + 1 < shunting.len() && (shunting[position + 1].typ == TokenType::Operator(
        OperatorTokenType::UnitConverter,
    ) || shunting[position + 1].typ == TokenType::Operator(OperatorTokenType::Div))
}

/// The next token and the tokens of the text after it.
pub open spec fn step(
    e: EvaluationView,
    tokens: Seq<Token>,
    shunting: Seq<ShuntingYardResult>,
    variables: Seq<Option<Variable>>,
) -> (Step, Seq<Token>) {
    let index = shunting[e.position as int].index_into_tokens;
    match shunting[e.position as int].typ {
        TokenType::NumberLiteral(num) => (
            Step::Next(e.pushed(ValueView::Number(num@), index)),
            tokens,
        ),
        TokenType::NumberErr => (Step::Failed, tokens),
        TokenType::Unit(UnitTokenType::ApplyToPrevToken, unit) => {
            let n = e.stack.len();
            let result = if n > 0 {
                match e.stack[n - 1].typ {
                    ValueView::Number(num) => with_unit(num, unit@, e.stack[n - 1].index, index),
                    _ => None,
                }
            } else {
                None
            };
            match result {
                Some(result) => (
                    Step::Next(e.advanced().operated(e.stack.take(n - 1).push(result))),
                    tokens,
                ),
                None => (Step::Failed, flagged(tokens, index)),
            }
        },
        TokenType::Unit(UnitTokenType::StandInItself, unit) => if unit_is_operand(
            shunting,
            e.position as int,
        ) {
            (Step::Next(e.pushed(ValueView::Unit(unit@), index)), tokens)
        } else {
            (Step::Next(e.advanced()), turned_to_text(tokens, index))
        },
        TokenType::Operator(OperatorTokenType::Assign) => (
            Step::Next(EvaluationView { assignment: true, ..e.advanced() }),
            tokens,
        ),
        TokenType::Operator(OperatorTokenType::Fn { arg_count, typ }) => (
            Step::Call(e.advanced(), arg_count, typ, index),
            tokens,
        ),
        TokenType::Operator(op) => match applied(e.stack, op, index) {
            Some(stack) => (
                Step::Next(
                    EvaluationView {
                        there_was_unit_conversion: e.there_was_unit_conversion
                            || op is UnitConverter,
                        ..e.advanced().operated(stack)
                    },
                ),
                tokens_after(tokens, e.stack, op, index),
            ),
            None => (Step::Failed, tokens_after(tokens, e.stack, op, index)),
        },
        TokenType::Variable { var_index } | TokenType::LineReference { var_index } => {
            match variables[var_index as int]->Some_0.value {
                Ok(value) => (Step::Next(e.pushed(value.typ@, index)), tokens),
                Err(_) => (Step::Failed, tokens),
            }
        },
        TokenType::StringLiteral | TokenType::Header => (Step::Failed, tokens),
    }
}

/// The tokens with those of the first `n` values on the stack turned into text, except for
/// the value at `kept`.
pub open spec fn all_but_one_to_text(
    tokens: Seq<Token>,
    stack: Seq<ResultView>,
    kept: int,
    n: nat,
) -> Seq<Token>
    decreases n,
{
    if n == 0 {
        tokens
    } else {
        let before = all_but_one_to_text(tokens, stack, kept, (n - 1) as nat);
        if n - 1 == kept {
            before
        } else {
            turned_to_text(before, stack[n - 1].index)
        }
    }
}

/// The answer when all tokens have been taken. In `1+2 some text 3` the result of `1+2` is
/// preferred and `3` becomes text; without an operation the last value is the answer.
pub open spec fn finished(e: EvaluationView, tokens: Seq<Token>) -> (ProgressView, Seq<Token>) {
    match e.last {
        Some(last) => (
            ProgressView::Finished(
                Ok(
                    Some(
                        AnswerView {
                            there_was_unit_conversion: e.there_was_unit_conversion,
                            there_was_operation: true,
                            assignment: e.assignment,
                            result: e.stack[last as int],
                        },
                    ),
                ),
            ),
            all_but_one_to_text(tokens, e.stack, last as int, e.stack.len()),
        ),
        None => if e.stack.len() > 0 {
            (
                ProgressView::Finished(
                    Ok(
                        Some(
                            AnswerView {
                                there_was_unit_conversion: e.there_was_unit_conversion,
                                there_was_operation: false,
                                assignment: e.assignment,
                                result: e.stack.last(),
                            },
                        ),
                    ),
                ),
                tokens,
            )
        } else {
            (ProgressView::Finished(Ok(None)), tokens)
        },
    }
}

/// The evaluation of the remaining tokens, up to the end or to the next function call.
pub open spec fn run(
    e: EvaluationView,
    tokens: Seq<Token>,
    shunting: Seq<ShuntingYardResult>,
    variables: Seq<Option<Variable>>,
) -> (ProgressView, Seq<Token>)
    decreases shunting.len() - e.position,
{
    if e.position >= shunting.len() {
        finished(e, tokens)
    } else {
        let (taken, after) = step(e, tokens, shunting, variables);
        match taken {
            Step::Next(next) => run(next, after, shunting, variables),
            Step::Failed => (ProgressView::Finished(Err(())), after),
            Step::Call(evaluation, arg_count, typ, op_token_index) => (
                ProgressView::Call { evaluation, arg_count, typ, op_token_index },
                after,
            ),
        }
    }
}

/// The evaluation after a function was called. A function that did not succeed ends it.
pub open spec fn resumed(
    e: EvaluationView,
    succeeded: bool,
    tokens: Seq<Token>,
    shunting: Seq<ShuntingYardResult>,
    variables: Seq<Option<Variable>>,
) -> (ProgressView, Seq<Token>) {
    if succeeded {
        run(e.operated(e.stack), tokens, shunting, variables)
    } else {
        (ProgressView::Finished(Err(())), tokens)
    }
}

/// Whether a token puts its own index on the stack or is looked up by it.
pub open spec fn index_is_used(typ: TokenType) -> bool {
    match typ {
        TokenType::Operator(op) => op is Matrix,
        TokenType::Unit(unit_typ, _) => unit_typ is StandInItself,
        TokenType::NumberErr => false,
        _ => true,
    }
}

/// A token that can be evaluated: no text; a variable that is there; an index, where it is
/// used, of a token of the text.
pub open spec fn token_is_valid(
    token: ShuntingYardResult,
    token_count: nat,
    variables: Seq<Option<Variable>>,
) -> bool {
    &&& token.typ !is StringLiteral
    &&& token.typ !is Header
    &&& token.typ matches TokenType::Variable { var_index } ==> var_index < variables.len()
        && variable_is_valid(variables[var_index as int])
    &&& token.typ matches TokenType::LineReference { var_index } ==> var_index < variables.len()
        && variable_is_valid(variables[var_index as int])
    &&& index_is_used(token.typ) ==> token.index_into_tokens < token_count
}

/// A variable that is there, with a well-formed value where it has one.
pub open spec fn variable_is_valid(variable: Option<Variable>) -> bool {
    variable matches Some(variable) && (variable.value matches Ok(value) ==> well_formed(value@))
}

/// Every token can be evaluated. This is enough for an evaluation, whatever its operators
/// make of the values; see [`runs_through`].
pub open spec fn input_is_valid(
    token_count: nat,
    shunting: Seq<ShuntingYardResult>,
    variables: Seq<Option<Variable>>,
) -> bool {
    forall|i: int|
        0 <= i < shunting.len() ==> token_is_valid(#[trigger] shunting[i], token_count, variables)
}

impl EvaluationView {
    /// The values on the stack are well-formed and stand for tokens of the text, and the
    /// result to prefer is one of them.
    pub open spec fn is_valid(self, token_count: nat, shunting_count: nat) -> bool {
        &&& all_well_formed(self.stack)
        &&& forall|i: int|
            0 <= i < self.stack.len() ==> (#[trigger] self.stack[i]).index < token_count
        &&& self.last matches Some(last) ==> last < self.stack.len()
        &&& self.position <= shunting_count
    }
}

/// The next token can be taken: it is no text, a variable is there, the token of a unit that
/// becomes text is there, and so are the cells of two matrices that are multiplied.
pub open spec fn can_be_taken(
    e: EvaluationView,
    token_count: nat,
    shunting: Seq<ShuntingYardResult>,
    variables: Seq<Option<Variable>>,
) -> bool {
    let token = shunting[e.position as int];
    match token.typ {
        TokenType::StringLiteral | TokenType::Header => false,
        TokenType::Variable { var_index } | TokenType::LineReference { var_index } => var_index
            < variables.len() && variables[var_index as int] is Some,
        TokenType::Unit(UnitTokenType::StandInItself, _) => unit_is_operand(
            shunting,
            e.position as int,
        ) || token.index_into_tokens < token_count,
        TokenType::Operator(op) => can_be_applied(e.stack, op),
        _ => true,
    }
}

/// The result to prefer is on the stack, and the tokens of the other values, which become
/// text, are there.
pub open spec fn can_be_finished(e: EvaluationView, token_count: nat) -> bool {
    e.last matches Some(last) ==> {
        &&& last < e.stack.len()
        &&& forall|i: int|
            0 <= i < e.stack.len() && i != last ==> (#[trigger] e.stack[i]).index < token_count
    }
}

/// Every token that the evaluation comes to can be taken, and where it comes to the end, it
/// can be finished.
pub open spec fn runs_through(
    e: EvaluationView,
    tokens: Seq<Token>,
    shunting: Seq<ShuntingYardResult>,
    variables: Seq<Option<Variable>>,
) -> bool
    decreases shunting.len() - e.position,
{
    if e.position >= shunting.len() {
        can_be_finished(e, tokens.len())
    } else {
        let (taken, after) = step(e, tokens, shunting, variables);
        can_be_taken(e, tokens.len(), shunting, variables) && match taken {
            Step::Next(next) => runs_through(next, after, shunting, variables),
            _ => true,
        }
    }
}

/// What [`take_token`] did with a token.
enum Taken {
    Next,
    Failed,
    Call { arg_count: usize, typ: FnType, op_token_index: usize },
}

/// Results of operators with two operands stand for no token in particular.
proof fn lemma_binary_index(op: OperatorTokenType, l: ResultView, r: ResultView)
    requires
        binary(op, l, r) is Some,
    ensures
        binary(op, l, r)->Some_0.index == 0,
{
}

/// An operator leaves a stack behind whose values stand for tokens of the text.
proof fn lemma_applied_keeps_indices(
    stack: Seq<ResultView>,
    op: OperatorTokenType,
    op_index: usize,
    token_count: nat,
)
    requires
        applied(stack, op, op_index) is Some,
        forall|i: int| 0 <= i < stack.len() ==> (#[trigger] stack[i]).index < token_count,
        op is Matrix ==> op_index < token_count,
    ensures
        forall|i: int|
            0 <= i < applied(stack, op, op_index)->Some_0.len() ==> (
            #[trigger] applied(stack, op, op_index)->Some_0[i]).index < token_count,
{
    let n = stack.len();
    if is_binary(op) {
        lemma_binary_index(op, stack[n - 2], stack[n - 1]);
        assert(stack[n - 1].index < token_count);
    } else if is_unary(op) {
        assert(stack[n - 1].index < token_count);
    }
}

/// Every token leaves a valid evaluation behind where it found one.
pub proof fn lemma_step_keeps_evaluation_valid(
    e: EvaluationView,
    tokens: Seq<Token>,
    shunting: Seq<ShuntingYardResult>,
    variables: Seq<Option<Variable>>,
)
    requires
        input_is_valid(tokens.len(), shunting, variables),
        e.is_valid(tokens.len(), shunting.len()),
        e.position < shunting.len(),
    ensures
        can_be_taken(e, tokens.len(), shunting, variables),
        step(e, tokens, shunting, variables).1.len() == tokens.len(),
        match step(e, tokens, shunting, variables).0 {
            Step::Next(next) => next.is_valid(tokens.len(), shunting.len()) && next.position
                == e.position + 1,
            Step::Failed => true,
            Step::Call(next, ..) => next.is_valid(tokens.len(), shunting.len()) && next.position
                == e.position + 1,
        },
{
    broadcast use group_views;

    let token = shunting[e.position as int];
    let n = e.stack.len();
    assert(token_is_valid(token, tokens.len(), variables));
    if n >= 2 {
        assert(well_formed(e.stack[n - 2]) && well_formed(e.stack[n - 1]));
    }
    match token.typ {
        TokenType::Operator(op) => {
            if op !is Assign && op !is Fn && applied(e.stack, op, token.index_into_tokens) is Some {
                law_operators_keep_the_stack_well_formed(e.stack, op, token.index_into_tokens);
                lemma_applied_keeps_indices(
                    e.stack,
                    op,
                    token.index_into_tokens,
                    tokens.len(),
                );
            }
        },
        TokenType::Variable { var_index } | TokenType::LineReference { var_index } => {
            assert(variable_is_valid(variables[var_index as int]));
        },
        TokenType::Unit(..) => {
            if n > 0 {
                assert(e.stack[n - 1].index < tokens.len());
            }
        },
        _ => {},
    }
}

/// Where a function is to be called, the evaluation is valid.
pub open spec fn call_is_valid(
    progress: ProgressView,
    token_count: nat,
    shunting_count: nat,
) -> bool {
    progress matches ProgressView::Call { evaluation, .. } ==> evaluation.is_valid(
        token_count,
        shunting_count,
    )
}

/// The input is valid, and so is the evaluation that a function has left behind.
pub open spec fn resumes_validly(
    e: EvaluationView,
    tokens: Seq<Token>,
    shunting: Seq<ShuntingYardResult>,
    variables: Seq<Option<Variable>>,
) -> bool {
    &&& input_is_valid(tokens.len(), shunting, variables)
    &&& e.operated(e.stack).is_valid(tokens.len(), shunting.len())
}

/// On valid input an evaluation that is valid runs through, and leaves a valid one behind
/// where it comes to a function call.
pub proof fn law_valid_evaluations_run_through(
    e: EvaluationView,
    tokens: Seq<Token>,
    shunting: Seq<ShuntingYardResult>,
    variables: Seq<Option<Variable>>,
)
    requires
        input_is_valid(tokens.len(), shunting, variables),
        e.is_valid(tokens.len(), shunting.len()),
    ensures
        runs_through(e, tokens, shunting, variables),
        call_is_valid(
            run(e, tokens, shunting, variables).0,
            run(e, tokens, shunting, variables).1.len(),
            shunting.len(),
        ),
    decreases shunting.len() - e.position,
{
    if e.position < shunting.len() {
        let (taken, after) = step(e, tokens, shunting, variables);
        lemma_step_keeps_evaluation_valid(e, tokens, shunting, variables);
        if let Step::Next(next) = taken {
            law_valid_evaluations_run_through(next, after, shunting, variables);
        }
    }
}

/// Takes the next token.
fn take_token(
    e: &mut Evaluation,
    tokens: &mut Vec<Token>,
    shunting_tokens: &Vec<ShuntingYardResult>,
    variables: &Vec<Option<Variable>>,
) -> (r: Taken)
    requires
        can_be_taken(old(e)@, old(tokens)@.len(), shunting_tokens@, variables@),
        old(e).position < shunting_tokens.len(),
    ensures
        r !is Failed ==> final(e).position == old(e).position + 1,
        step(old(e)@, old(tokens)@, shunting_tokens@, variables@) == (
            match r {
                Taken::Next => Step::Next(final(e)@),
                Taken::Failed => Step::Failed,
                Taken::Call { arg_count, typ, op_token_index } => Step::Call(
                    final(e)@,
                    arg_count,
                    typ,
                    op_token_index,
                ),
            },
            final(tokens)@,
        ),
{
    broadcast use group_views;

    let position: usize = e.position;
    let token = &shunting_tokens[position];
    let index: usize = token.index_into_tokens;
    let ghost before = e@;
    e.position = position + 1;
    match &token.typ {
        TokenType::NumberLiteral(num) => {
            e.stack.push(CalcResult::new(CalcResultType::Number(*num), index));
            assert(e@.stack =~= before.pushed(ValueView::Number(num@), index).stack);
            Taken::Next
        },
        TokenType::NumberErr => Taken::Failed,
        TokenType::Unit(UnitTokenType::ApplyToPrevToken, unit) => {
            let len: usize = e.stack.len();
            if len > 0 {
                if let CalcResultType::Number(num) = &e.stack[len - 1].typ {
                    match unit_conversion(num, unit, e.stack[len - 1].index_into_tokens, index) {
                        Some(result) => {
                            e.stack.truncate(len - 1);
                            e.stack.push(result);
                            e.last_success_operation_result_index = Some(len - 1);
                            assert(e@.stack =~= before.stack.take(len - 1).push(result@));
                            return Taken::Next;
                        },
                        None => {},
                    }
                }
            }
            Token::set_token_error_flag_by_index(index, tokens);
            Taken::Failed
        },
        TokenType::Unit(UnitTokenType::StandInItself, unit) => {
            let is_operand = position + 1 < shunting_tokens.len() && matches!(
                shunting_tokens[position + 1].typ,
                TokenType::Operator(OperatorTokenType::UnitConverter)
                    | TokenType::Operator(OperatorTokenType::Div)
            );
            if is_operand {
                e.stack.push(CalcResult::new(CalcResultType::Unit(unit.clone()), index));
                assert(e@.stack =~= before.pushed(ValueView::Unit(unit@), index).stack);
            } else {
                Token::turn_to_text(index, tokens);
            }
            Taken::Next
        },
        TokenType::Operator(OperatorTokenType::Assign) => {
            e.assignment = true;
            Taken::Next
        },
        TokenType::Operator(OperatorTokenType::Fn { arg_count, typ }) => Taken::Call {
            arg_count: *arg_count,
            typ: *typ,
            op_token_index: index,
        },
        TokenType::Operator(op) => {
            if apply_operation(tokens, &mut e.stack, op, index) {
                if matches!(op, OperatorTokenType::UnitConverter) {
                    e.there_was_unit_conversion = true;
                }
                if e.stack.len() > 0 {
                    e.last_success_operation_result_index = Some(e.stack.len() - 1);
                }
                Taken::Next
            } else {
                Taken::Failed
            }
        },
        TokenType::Variable { var_index } | TokenType::LineReference { var_index } => {
            match &variables[*var_index] {
                Some(variable) => match &variable.value {
                    Ok(value) => {
                        e.stack.push(CalcResult::new(value.typ.clone(), index));
                        assert(e@.stack =~= before.pushed(value.typ@, index).stack);
                        Taken::Next
                    },
                    Err(_) => Taken::Failed,
                },
                None => Taken::Failed,
            }
        },
        TokenType::StringLiteral | TokenType::Header => Taken::Failed,
    }
}

/// Gives the answer when all tokens have been taken.
fn finish(e: Evaluation, tokens: &mut Vec<Token>) -> (r: Progress)
    requires
        can_be_finished(e@, old(tokens)@.len()),
    ensures
        (r@, final(tokens)@) == finished(e@, old(tokens)@),
{
    broadcast use group_views;

    let mut e = e;
    match e.last_success_operation_result_index {
        Some(last) => {
            let mut i: usize = 0;
            while i < e.stack.len()
                invariant
                    i <= e.stack.len(),
                    tokens@.len() == old(tokens)@.len(),
                    tokens@ == all_but_one_to_text(old(tokens)@, e@.stack, last as int, i as nat),
                    forall|j: int|
                        0 <= j < e@.stack.len() && j != last ==> (#[trigger] e@.stack[j]).index
                            < tokens@.len(),
                decreases e.stack.len() - i,
            {
                if i != last {
                    assert(e@.stack[i as int].index < tokens@.len());
                    Token::turn_to_text(e.stack[i].index_into_tokens, tokens);
                }
                i = i + 1;
            }
            Progress::Finished(
                Ok(
                    Some(
                        EvaluationResult {
                            there_was_unit_conversion: e.there_was_unit_conversion,
                            there_was_operation: true,
                            assignment: e.assignment,
                            result: e.stack[last].clone(),
                        },
                    ),
                ),
            )
        },
        None => {
            let ghost stack = e.stack@;
            match e.stack.pop() {
                Some(result) => {
                    assert(result == stack.last());
                    Progress::Finished(
                        Ok(
                            Some(
                                EvaluationResult {
                                    there_was_unit_conversion: e.there_was_unit_conversion,
                                    there_was_operation: false,
                                    assignment: e.assignment,
                                    result,
                                },
                            ),
                        ),
                    )
                },
                None => Progress::Finished(Ok(None)),
            }
        },
    }
}

/// Takes the remaining tokens, up to the end or to the next function call.
fn run_evaluation(
    evaluation: Evaluation,
    tokens: &mut Vec<Token>,
    shunting_tokens: &Vec<ShuntingYardResult>,
    variables: &Vec<Option<Variable>>,
) -> (r: Progress)
    requires
        runs_through(evaluation@, old(tokens)@, shunting_tokens@, variables@),
    ensures
        (r@, final(tokens)@) == run(evaluation@, old(tokens)@, shunting_tokens@, variables@),
{
    let mut e = evaluation;
    while e.position < shunting_tokens.len()
        invariant
            runs_through(e@, tokens@, shunting_tokens@, variables@),
            run(e@, tokens@, shunting_tokens@, variables@) == run(
                evaluation@,
                old(tokens)@,
                shunting_tokens@,
                variables@,
            ),
        decreases shunting_tokens.len() - e.position,
    {
        match take_token(&mut e, tokens, shunting_tokens, variables) {
            Taken::Next => {},
            Taken::Failed => {
                return Progress::Finished(Err(()));
            },
            Taken::Call { arg_count, typ, op_token_index } => {
                return Progress::Call { evaluation: e, arg_count, typ, op_token_index };
            },
        }
    }
    finish(e, tokens)
}

/// Evaluates an expression, up to its end or to its first function call.
///
/// A failed operation marks the tokens that it failed on; values that are not part of the
/// answer turn their tokens into text.
pub fn evaluate_tokens(
    tokens: &mut Vec<Token>,
    shunting_tokens: &Vec<ShuntingYardResult>,
    variables: &Vec<Option<Variable>>,
) -> (r: Progress)
    requires
        input_is_valid(old(tokens)@.len(), shunting_tokens@, variables@) || runs_through(
            EvaluationView::start(),
            old(tokens)@,
            shunting_tokens@,
            variables@,
        ),
    ensures
        (r@, final(tokens)@) == run(
            EvaluationView::start(),
            old(tokens)@,
            shunting_tokens@,
            variables@,
        ),
        input_is_valid(old(tokens)@.len(), shunting_tokens@, variables@) ==> call_is_valid(
            r@,
            final(tokens)@.len(),
            shunting_tokens@.len(),
        ),
{
    let evaluation = Evaluation {
        stack: Vec::new(),
        there_was_unit_conversion: false,
        assignment: false,
        last_success_operation_result_index: None,
        position: 0,
    };
    assert(evaluation@ =~= EvaluationView::start());
    proof {
        if input_is_valid(tokens@.len(), shunting_tokens@, variables@) {
            law_valid_evaluations_run_through(evaluation@, tokens@, shunting_tokens@, variables@);
        }
    }
    run_evaluation(evaluation, tokens, shunting_tokens, variables)
}

/// Goes on with an evaluation after a function was called, up to its end or to the next
/// function call.
pub fn resume_evaluation(
    evaluation: Evaluation,
    succeeded: bool,
    tokens: &mut Vec<Token>,
    shunting_tokens: &Vec<ShuntingYardResult>,
    variables: &Vec<Option<Variable>>,
) -> (r: Progress)
    requires
        succeeded ==> resumes_validly(
            evaluation@,
            old(tokens)@,
            shunting_tokens@,
            variables@,
        ) || runs_through(
            evaluation@.operated(evaluation@.stack),
            old(tokens)@,
            shunting_tokens@,
            variables@,
        ),
    ensures
        (r@, final(tokens)@) == resumed(
            evaluation@,
            succeeded,
            old(tokens)@,
            shunting_tokens@,
            variables@,
        ),
        resumes_validly(evaluation@, old(tokens)@, shunting_tokens@, variables@) ==> call_is_valid(
            r@,
            final(tokens)@.len(),
            shunting_tokens@.len(),
        ),
{
    broadcast use group_views;

    if !succeeded {
        return Progress::Finished(Err(()));
    }
    let mut e = evaluation;
    if e.stack.len() > 0 {
        e.last_success_operation_result_index = Some(e.stack.len() - 1);
    }
    assert(e@ =~= evaluation@.operated(evaluation@.stack));
    proof {
        if resumes_validly(evaluation@, tokens@, shunting_tokens@, variables@) {
            law_valid_evaluations_run_through(e@, tokens@, shunting_tokens@, variables@);
        }
    }
    run_evaluation(e, tokens, shunting_tokens, variables)
}

} // verus!
