//! Laws of the evaluation of expressions.
use crate::evaluation::all_but_one_to_text;
use crate::evaluation::finished;
use crate::evaluation::input_is_valid;
use crate::evaluation::lemma_step_keeps_evaluation_valid;
use crate::evaluation::run;
use crate::evaluation::step;
use crate::evaluation::unit_is_operand;
use crate::evaluation::EvaluationView;
use crate::evaluation::ProgressView;
use crate::evaluation::Step;
use crate::expression::leaf_value;
use crate::operation::applied;
use crate::operation::is_binary;
use crate::operation::tokens_after;
use crate::token::flagged;
use crate::token::flagged_for;
use crate::token::turned_to_text;
use crate::token::OperatorTokenType;
use crate::token::ShuntingYardResult;
use crate::token::Token;
use crate::token::TokenType;
use crate::token::Variable;
use crate::value::well_formed;
use crate::value::ResultView;
use vstd::prelude::*;

verus! {

/// A token keeps its type or becomes text, and an error stays an error.
pub open spec fn only_marked(before: Token, after: Token) -> bool {
    &&& after.typ == before.typ || after.typ == TokenType::StringLiteral
    &&& before.has_error ==> after.has_error
}

pub open spec fn all_only_marked(before: Seq<Token>, after: Seq<Token>) -> bool {
    &&& after.len() == before.len()
    &&& forall|i: int| 0 <= i < before.len() ==> only_marked(before[i], #[trigger] after[i])
}

pub open spec fn same_errors(before: Seq<Token>, after: Seq<Token>) -> bool {
    &&& after.len() == before.len()
    &&& forall|i: int|
        0 <= i < before.len() ==> (#[trigger] after[i]).has_error == before[i].has_error
}

proof fn lemma_marked_further(before: Seq<Token>, tokens: Seq<Token>, index: usize)
    requires
        all_only_marked(before, tokens),
    ensures
        all_only_marked(before, flagged(tokens, index)),
        all_only_marked(before, turned_to_text(tokens, index)),
{
}

proof fn lemma_marked_for_value(before: Seq<Token>, tokens: Seq<Token>, r: ResultView)
    requires
        all_only_marked(before, tokens),
    ensures
        all_only_marked(before, flagged_for(tokens, r)),
{
    lemma_marked_further(before, tokens, r.index);
    if let Some(index2) = r.index2 {
        lemma_marked_further(before, flagged(tokens, r.index), index2);
    }
}

proof fn lemma_step_only_marks(
    e: EvaluationView,
    tokens: Seq<Token>,
    shunting: Seq<ShuntingYardResult>,
    variables: Seq<Option<Variable>>,
)
    ensures
        all_only_marked(tokens, step(e, tokens, shunting, variables).1),
{
    let n = e.stack.len();
    let index = shunting[e.position as int].index_into_tokens;
    lemma_marked_further(tokens, tokens, index);
    if let TokenType::Operator(op) = shunting[e.position as int].typ {
        let once = flagged_for(tokens, e.stack[n - 2]);
        let twice = flagged_for(once, e.stack[n - 1]);
        lemma_marked_for_value(tokens, tokens, e.stack[n - 2]);
        lemma_marked_for_value(tokens, once, e.stack[n - 1]);
        lemma_marked_further(tokens, twice, index);
        assert(tokens_after(tokens, e.stack, op, index) == tokens || tokens_after(
            tokens,
            e.stack,
            op,
            index,
        ) == flagged(twice, index));
    }
}

proof fn lemma_text(tokens: Seq<Token>, stack: Seq<ResultView>, kept: int, n: nat)
    ensures
        all_only_marked(tokens, all_but_one_to_text(tokens, stack, kept, n)),
        same_errors(tokens, all_but_one_to_text(tokens, stack, kept, n)),
    decreases n,
{
    if n > 0 {
        lemma_text(tokens, stack, kept, (n - 1) as nat);
    }
}

/// An evaluation neither adds nor removes tokens of the text. It marks some as wrong or turns
/// them into text, and does nothing else to them.
pub proof fn law_tokens_are_only_marked(
    e: EvaluationView,
    tokens: Seq<Token>,
    shunting: Seq<ShuntingYardResult>,
    variables: Seq<Option<Variable>>,
)
    ensures
        all_only_marked(tokens, run(e, tokens, shunting, variables).1),
    decreases shunting.len() - e.position,
{
    if e.position >= shunting.len() {
        if let Some(last) = e.last {
            lemma_text(tokens, e.stack, last as int, e.stack.len());
        }
    } else {
        let (taken, after) = step(e, tokens, shunting, variables);
        lemma_step_only_marks(e, tokens, shunting, variables);
        if let Step::Next(next) = taken {
            law_tokens_are_only_marked(next, after, shunting, variables);
            let end = run(next, after, shunting, variables).1;
            assert forall|i: int| 0 <= i < tokens.len() implies only_marked(
                tokens[i],
                #[trigger] end[i],
            ) by {
                assert(only_marked(tokens[i], after[i]) && only_marked(after[i], end[i]));
            }
        }
    }
}

/// An evaluation that comes to an answer, or to a function call, marks no token as wrong.
pub proof fn law_only_failures_mark_errors(
    e: EvaluationView,
    tokens: Seq<Token>,
    shunting: Seq<ShuntingYardResult>,
    variables: Seq<Option<Variable>>,
)
    ensures
        run(e, tokens, shunting, variables).0 != ProgressView::Finished(Err(())) ==> same_errors(
            tokens,
            run(e, tokens, shunting, variables).1,
        ),
    decreases shunting.len() - e.position,
{
    if e.position >= shunting.len() {
        if let Some(last) = e.last {
            lemma_text(tokens, e.stack, last as int, e.stack.len());
        }
    } else {
        let (taken, after) = step(e, tokens, shunting, variables);
        if let Step::Next(next) = taken {
            assert(same_errors(tokens, after));
            law_only_failures_mark_errors(next, after, shunting, variables);
        }
    }
}

/// The token at `index` is marked as wrong, where there is such a token.
pub open spec fn is_marked(tokens: Seq<Token>, index: usize) -> bool {
    index < tokens.len() ==> tokens[index as int].has_error
}

/// The tokens that a value stands for are marked as wrong.
pub open spec fn value_is_marked(tokens: Seq<Token>, r: ResultView) -> bool {
    &&& is_marked(tokens, r.index)
    &&& r.index2 matches Some(index2) ==> is_marked(tokens, index2)
}

/// An operator that does not fit its two operands marks the tokens of both, and its own.
pub proof fn law_failed_operators_mark_their_operands(
    tokens: Seq<Token>,
    stack: Seq<ResultView>,
    op: OperatorTokenType,
    op_index: usize,
)
    requires
        is_binary(op),
        stack.len() >= 2,
        applied(stack, op, op_index) is None,
    ensures
        ({
            let after = tokens_after(tokens, stack, op, op_index);
            &&& value_is_marked(after, stack[stack.len() - 2])
            &&& value_is_marked(after, stack[stack.len() - 1])
            &&& is_marked(after, op_index)
        }),
{
}

/// One of the tokens from `from` on is the operator `op`.
pub open spec fn has_operator(
    shunting: Seq<ShuntingYardResult>,
    from: nat,
    op: OperatorTokenType,
) -> bool {
    exists|k: int|
        from <= k < shunting.len() && (#[trigger] shunting[k]).typ == TokenType::Operator(op)
}

/// An answer says whether there was an assignment, and whether there was a conversion, among
/// the tokens that it was made of.
pub proof fn law_flags_tell_what_was_seen(
    e: EvaluationView,
    tokens: Seq<Token>,
    shunting: Seq<ShuntingYardResult>,
    variables: Seq<Option<Variable>>,
)
    ensures
        run(e, tokens, shunting, variables).0 matches ProgressView::Finished(Ok(Some(answer))) ==> {
            &&& answer.assignment == (e.assignment || has_operator(
                shunting,
                e.position,
                OperatorTokenType::Assign,
            ))
            &&& answer.there_was_unit_conversion == (e.there_was_unit_conversion || has_operator(
                shunting,
                e.position,
                OperatorTokenType::UnitConverter,
            ))
        },
    decreases shunting.len() - e.position,
{
    if e.position < shunting.len() {
        let (taken, after) = step(e, tokens, shunting, variables);
        if let Step::Next(next) = taken {
            law_flags_tell_what_was_seen(next, after, shunting, variables);
            lemma_has_operator(shunting, e.position, OperatorTokenType::Assign);
            lemma_has_operator(shunting, e.position, OperatorTokenType::UnitConverter);
        }
    }
}

proof fn lemma_has_operator(shunting: Seq<ShuntingYardResult>, from: nat, op: OperatorTokenType)
    requires
        from < shunting.len(),
    ensures
        has_operator(shunting, from, op) == (shunting[from as int].typ == TokenType::Operator(op)
            || has_operator(shunting, from + 1, op)),
{
}

/// A token of an operation: an operator with operands, or a unit that follows a number.
pub open spec fn operates(typ: TokenType) -> bool {
    match typ {
        TokenType::Operator(op) => op !is Assign && op !is Fn && !separates(typ),
        TokenType::Unit(unit_typ, _) => unit_typ is ApplyToPrevToken,
        _ => false,
    }
}

/// An operator that only stands between values.
pub open spec fn separates(typ: TokenType) -> bool {
    typ matches TokenType::Operator(op) && (op is Comma || op is Semicolon || op is PercentageIs)
}

pub open spec fn has_operation(shunting: Seq<ShuntingYardResult>, from: nat) -> bool {
    exists|k: int| from <= k < shunting.len() && operates((#[trigger] shunting[k]).typ)
}

pub open spec fn has_separator(shunting: Seq<ShuntingYardResult>, from: nat) -> bool {
    exists|k: int| from <= k < shunting.len() && separates((#[trigger] shunting[k]).typ)
}

proof fn lemma_has_operation(shunting: Seq<ShuntingYardResult>, from: nat)
    requires
        from < shunting.len(),
    ensures
        has_operation(shunting, from) == (operates(shunting[from as int].typ) || has_operation(
            shunting,
            from + 1,
        )),
        has_separator(shunting, from) == (separates(shunting[from as int].typ) || has_separator(
            shunting,
            from + 1,
        )),
{
}

/// A token of an operation leaves a result to prefer behind; a token that is no operator but
/// an assignment leaves that as it was.
proof fn lemma_step_operates(
    e: EvaluationView,
    tokens: Seq<Token>,
    shunting: Seq<ShuntingYardResult>,
    variables: Seq<Option<Variable>>,
)
    requires
        step(e, tokens, shunting, variables).0 is Next,
    ensures
        ({
            let typ = shunting[e.position as int].typ;
            let next = step(e, tokens, shunting, variables).0->Next_0;
            &&& next.position == e.position + 1
            &&& e.last is Some || operates(typ) ==> next.last is Some
            &&& !operates(typ) && !separates(typ) ==> next.last == e.last
        }),
{
}

/// An answer says that there was an operation wherever one was among the tokens that it was
/// made of; and, where no comma, semicolon or `is` was among them, only there. (An answer is
/// only reached through tokens without function calls.)
pub proof fn law_operations_are_told(
    e: EvaluationView,
    tokens: Seq<Token>,
    shunting: Seq<ShuntingYardResult>,
    variables: Seq<Option<Variable>>,
)
    ensures
        run(e, tokens, shunting, variables).0 matches ProgressView::Finished(Ok(Some(answer))) ==> {
            &&& e.last is Some || has_operation(shunting, e.position) ==> answer.there_was_operation
            &&& !has_separator(shunting, e.position) ==> answer.there_was_operation == (
            e.last is Some || has_operation(shunting, e.position))
        },
    decreases shunting.len() - e.position,
{
    if e.position < shunting.len() {
        let (taken, after) = step(e, tokens, shunting, variables);
        if let Step::Next(next) = taken {
            lemma_step_operates(e, tokens, shunting, variables);
            law_operations_are_told(next, after, shunting, variables);
            lemma_has_operation(shunting, e.position);
        }
    }
}

/// A variable that is there, but has no value.
pub open spec fn has_no_value(variables: Seq<Option<Variable>>, index: usize) -> bool {
    index < variables.len() && (variables[index as int] matches Some(v) && v.value is Err)
}

/// No answer comes of a token that cannot be evaluated: a number that is none, a bracket or a
/// parenthesis, a variable or a line without a value.
pub open spec fn spoils(typ: TokenType, variables: Seq<Option<Variable>>) -> bool {
    match typ {
        TokenType::Variable { var_index } => has_no_value(variables, var_index),
        TokenType::LineReference { var_index } => has_no_value(variables, var_index),
        TokenType::NumberErr => true,
        TokenType::Operator(op) => op is ParenOpen || op is ParenClose || op is BracketOpen
            || op is BracketClose,
        _ => false,
    }
}

/// An expression with a token that cannot be evaluated has no answer.
pub proof fn law_no_answer_with_spoilt_tokens(
    e: EvaluationView,
    tokens: Seq<Token>,
    shunting: Seq<ShuntingYardResult>,
    variables: Seq<Option<Variable>>,
    k: int,
)
    requires
        e.position <= k < shunting.len(),
        spoils(shunting[k].typ, variables),
    ensures
        !(run(e, tokens, shunting, variables).0 matches ProgressView::Finished(Ok(_))),
    decreases shunting.len() - e.position,
{
    let (taken, after) = step(e, tokens, shunting, variables);
    if let Step::Next(next) = taken {
        law_no_answer_with_spoilt_tokens(next, after, shunting, variables, k);
    }
}

/// The answer of an evaluation is well-formed.
pub proof fn law_answers_are_well_formed(
    e: EvaluationView,
    tokens: Seq<Token>,
    shunting: Seq<ShuntingYardResult>,
    variables: Seq<Option<Variable>>,
)
    requires
        input_is_valid(tokens.len(), shunting, variables),
        e.is_valid(tokens.len(), shunting.len()),
    ensures
        run(e, tokens, shunting, variables).0 matches ProgressView::Finished(Ok(Some(answer)))
            ==> well_formed(answer.result),
    decreases shunting.len() - e.position,
{
    if e.position < shunting.len() {
        let (taken, after) = step(e, tokens, shunting, variables);
        lemma_step_keeps_evaluation_valid(e, tokens, shunting, variables);
        if let Step::Next(next) = taken {
            law_answers_are_well_formed(next, after, shunting, variables);
        }
    }
}

/// When there was an operation, the value that it left is the answer, and the tokens of all
/// other values become text.
pub proof fn law_last_operation_is_preferred(
    e: EvaluationView,
    tokens: Seq<Token>,
    i: int,
)
    requires
        e.last matches Some(last) && last < e.stack.len(),
        0 <= i < e.stack.len(),
        i != e.last->Some_0,
        e.stack[i].index < tokens.len(),
    ensures
        finished(e, tokens).0 matches ProgressView::Finished(Ok(Some(answer)))
            && answer.there_was_operation && answer.result == e.stack[e.last->Some_0 as int],
        finished(e, tokens).1[e.stack[i].index as int].typ == TokenType::StringLiteral,
{
    lemma_becomes_text(tokens, e.stack, e.last->Some_0 as int, e.stack.len(), i);
}

proof fn lemma_becomes_text(
    tokens: Seq<Token>,
    stack: Seq<ResultView>,
    kept: int,
    n: nat,
    i: int,
)
    requires
        0 <= i < n,
        i != kept,
        stack[i].index < tokens.len(),
    ensures
        all_but_one_to_text(tokens, stack, kept, n)[stack[i].index as int].typ
            == TokenType::StringLiteral,
    decreases n,
{
    lemma_text(tokens, stack, kept, (n - 1) as nat);
    if i < n - 1 {
        lemma_becomes_text(tokens, stack, kept, (n - 1) as nat, i);
    }
}

/// Neither an operator nor a unit behind a number.
pub open spec fn is_plain_value(typ: TokenType) -> bool {
    match typ {
        TokenType::Operator(op) => op is Assign,
        TokenType::Unit(unit_typ, _) => unit_typ is StandInItself,
        _ => true,
    }
}

/// The `k`-th token is the last one that has a value.
pub open spec fn is_last_value(
    shunting: Seq<ShuntingYardResult>,
    variables: Seq<Option<Variable>>,
    k: int,
) -> bool {
    &&& leaf_value(shunting[k], variables) is Some
    &&& forall|j: int|
        k < j < shunting.len() ==> leaf_value(#[trigger] shunting[j], variables) is None
}

/// Without operations the answer is the value of the last token that has one, and there is
/// none only where no token has a value.
pub proof fn law_last_value_without_operation(
    tokens: Seq<Token>,
    shunting: Seq<ShuntingYardResult>,
    variables: Seq<Option<Variable>>,
)
    requires
        forall|k: int| 0 <= k < shunting.len() ==> is_plain_value((#[trigger] shunting[k]).typ),
    ensures
        run(EvaluationView::start(), tokens, shunting, variables).0 matches ProgressView::Finished(
            Ok(Some(answer)),
        ) ==> !answer.there_was_operation && exists|k: int|
            0 <= k < shunting.len() && #[trigger] is_last_value(shunting, variables, k)
                && leaf_value(shunting[k], variables) == Some(answer.result),
        run(EvaluationView::start(), tokens, shunting, variables).0 == ProgressView::Finished(
            Ok(None),
        ) ==> forall|k: int|
            0 <= k < shunting.len() ==> leaf_value(#[trigger] shunting[k], variables) is None,
{
    lemma_last_value(EvaluationView::start(), tokens, shunting, variables);
}

proof fn lemma_last_value(
    e: EvaluationView,
    tokens: Seq<Token>,
    shunting: Seq<ShuntingYardResult>,
    variables: Seq<Option<Variable>>,
)
    requires
        e.last is None,
        forall|k: int|
            e.position <= k < shunting.len() ==> is_plain_value((#[trigger] shunting[k]).typ),
    ensures
        run(e, tokens, shunting, variables).0 matches ProgressView::Finished(Ok(Some(answer))) ==> {
            &&& !answer.there_was_operation
            &&& ({
                ||| exists|k: int|
                    e.position <= k < shunting.len() && #[trigger] is_last_value(
                        shunting,
                        variables,
                        k,
                    ) && leaf_value(shunting[k], variables) == Some(answer.result)
                ||| e.stack.len() > 0 && answer.result == e.stack.last() && forall|k: int|
                    e.position <= k < shunting.len() ==> leaf_value(
                        #[trigger] shunting[k],
                        variables,
                    ) is None
            })
        },
        run(e, tokens, shunting, variables).0 == ProgressView::Finished(Ok(None)) ==> e.stack.len()
            == 0 && forall|k: int|
            e.position <= k < shunting.len() ==> leaf_value(#[trigger] shunting[k], variables) is None,
    decreases shunting.len() - e.position,
{
    if e.position < shunting.len() {
        let at = e.position as int;
        assert(is_plain_value(shunting[at].typ));
        let (taken, after) = step(e, tokens, shunting, variables);
        if let Step::Next(next) = taken {
            assert(!unit_is_operand(shunting, at)) by {
                if at + 1 < shunting.len() {
                    assert(is_plain_value(shunting[at + 1].typ));
                }
            }
            lemma_last_value(next, after, shunting, variables);
            if leaf_value(shunting[at], variables) is Some {
                assert(next.stack.last() == leaf_value(shunting[at], variables)->Some_0);
                if forall|k: int|
                    next.position <= k < shunting.len() ==> leaf_value(
                        #[trigger] shunting[k],
                        variables,
                    ) is None {
                    assert(is_last_value(shunting, variables, at));
                }
            }
        }
    }
}

} // verus!
