//! Expressions as trees, and their evaluation in postfix order.
use crate::arithmetic::all_some;
use crate::evaluation::all_but_one_to_text;
use crate::evaluation::finished;
use crate::evaluation::run;
use crate::evaluation::step;
use crate::evaluation::unit_is_operand;
use crate::evaluation::AnswerView;
use crate::evaluation::EvaluationView;
use crate::evaluation::ProgressView;
use crate::evaluation::Step;
use crate::operation::applied;
use crate::operation::binary;
use crate::operation::is_binary;
use crate::operation::is_unary;
use crate::operation::unary;
use crate::operation::with_unit;
use crate::token::OperatorTokenType;
use crate::token::ShuntingYardResult;
use crate::token::Token;
use crate::token::TokenType;
use crate::token::UnitTokenType;
use crate::token::Variable;
use crate::units::UnitOutput;
use crate::value::MatrixView;
use crate::value::ResultView;
use crate::value::ValueView;
use vstd::prelude::*;

verus! {

/// An expression. Each part knows which token of the text it comes from.
pub enum Expression {
    /// A number or a variable.
    Leaf { token: ShuntingYardResult },
    /// `-x`, `x%`
    Unary { op: OperatorTokenType, index: usize, operand: Box<Expression> },
    /// `x + y`
    Binary { op: OperatorTokenType, index: usize, left: Box<Expression>, right: Box<Expression> },
    /// `5 km`
    Measured { number: Box<Expression>, unit: UnitOutput, unit_index: usize },
    /// `x in km`, `x / year`
    ByUnit {
        op: OperatorTokenType,
        index: usize,
        left: Box<Expression>,
        unit: UnitOutput,
        unit_index: usize,
    },
    /// `[x, y; z, w]`
    Matrix { cells: Seq<Expression>, row_count: usize, col_count: usize, index: usize },
}

/// Operators are where they belong, and a matrix has as many cells as its shape says.
pub open spec fn is_proper(x: Expression) -> bool
    decreases x,
{
    match x {
        Expression::Leaf { token } => token.typ is NumberLiteral || token.typ is Variable
            || token.typ is LineReference,
        Expression::Unary { op, operand, .. } => is_unary(op) && is_proper(*operand),
        Expression::Binary { op, left, right, .. } => is_binary(op) && is_proper(*left)
            && is_proper(*right),
        Expression::Measured { number, .. } => is_proper(*number),
        Expression::ByUnit { op, left, .. } => (op is UnitConverter || op is Div) && is_proper(
            *left,
        ),
        Expression::Matrix { cells, row_count, col_count, .. } => {
            &&& cells.len() == row_count * col_count
            &&& forall|i: int| 0 <= i < cells.len() ==> is_proper(#[trigger] cells[i])
        },
    }
}

/// The tokens of an expression in postfix order.
pub open spec fn postfix(x: Expression) -> Seq<ShuntingYardResult>
    decreases x, 0nat,
{
    match x {
        Expression::Leaf { token } => seq![token],
        Expression::Unary { op, index, operand } => postfix(*operand).push(operator(op, index)),
        Expression::Binary { op, index, left, right } => (postfix(*left) + postfix(*right)).push(
            operator(op, index),
        ),
        Expression::Measured { number, unit, unit_index } => postfix(*number).push(
            ShuntingYardResult {
                typ: TokenType::Unit(UnitTokenType::ApplyToPrevToken, unit),
                index_into_tokens: unit_index,
            },
        ),
        Expression::ByUnit { op, index, left, unit, unit_index } => postfix(*left).push(
            ShuntingYardResult {
                typ: TokenType::Unit(UnitTokenType::StandInItself, unit),
                index_into_tokens: unit_index,
            },
        ).push(operator(op, index)),
        Expression::Matrix { cells, row_count, col_count, index } => postfix_of_all(
            cells,
            cells.len(),
        ).push(operator(OperatorTokenType::Matrix { row_count, col_count }, index)),
    }
}

/// The tokens of the first `n` expressions.
pub open spec fn postfix_of_all(xs: Seq<Expression>, n: nat) -> Seq<ShuntingYardResult>
    decreases xs, n,
{
    if n == 0 || n > xs.len() {
        Seq::empty()
    } else {
        postfix_of_all(xs, (n - 1) as nat) + postfix(xs[n - 1])
    }
}

pub open spec fn operator(op: OperatorTokenType, index: usize) -> ShuntingYardResult {
    ShuntingYardResult { typ: TokenType::Operator(op), index_into_tokens: index }
}

/// The value of a number or a variable.
pub open spec fn leaf_value(token: ShuntingYardResult, variables: Seq<Option<Variable>>) -> Option<
    ResultView,
> {
    let index = token.index_into_tokens;
    match token.typ {
        TokenType::NumberLiteral(num) => Some(
            ResultView { typ: ValueView::Number(num@), index, index2: None },
        ),
        TokenType::Variable { var_index } | TokenType::LineReference { var_index } => {
            match variables[var_index as int]->Some_0.value {
                Ok(value) => Some(ResultView { typ: value.typ@, index, index2: None }),
                Err(_) => None,
            }
        },
        _ => None,
    }
}

/// The value of an expression: that of its operator applied to the values of its parts.
pub open spec fn value(x: Expression, variables: Seq<Option<Variable>>) -> Option<ResultView>
    decreases x, 0nat,
{
    match x {
        Expression::Leaf { token } => leaf_value(token, variables),
        Expression::Unary { op, index, operand } => match value(*operand, variables) {
            Some(v) => unary(op, v, index),
            None => None,
        },
        Expression::Binary { op, left, right, .. } => match (
            value(*left, variables),
            value(*right, variables),
        ) {
            (Some(l), Some(r)) => binary(op, l, r),
            _ => None,
        },
        Expression::Measured { number, unit, unit_index } => match value(*number, variables) {
            Some(v) => match v.typ {
                ValueView::Number(n) => with_unit(n, unit@, v.index, unit_index),
                _ => None,
            },
            None => None,
        },
        Expression::ByUnit { op, left, unit, unit_index, .. } => match value(*left, variables) {
            Some(l) => binary(
                op,
                l,
                ResultView { typ: ValueView::Unit(unit@), index: unit_index, index2: None },
            ),
            None => None,
        },
        Expression::Matrix { cells, row_count, col_count, index } => match all_some(
            values(cells, variables),
        ) {
            Some(cells) => Some(
                ResultView {
                    typ: ValueView::Matrix(
                        MatrixView { cells, rows: row_count as nat, cols: col_count as nat },
                    ),
                    index,
                    index2: None,
                },
            ),
            None => None,
        },
    }
}

pub open spec fn values(xs: Seq<Expression>, variables: Seq<Option<Variable>>) -> Seq<
    Option<ResultView>,
>
    decreases xs, 1nat,
{
    Seq::new(
        xs.len(),
        |i: int|
            if 0 <= i < xs.len() {
                value(xs[i], variables)
            } else {
                None
            },
    )
}

/// Whether an expression is more than a number or a variable.
pub open spec fn operates(x: Expression) -> bool {
    x !is Leaf
}

/// Whether an expression holds a conversion.
pub open spec fn converts(x: Expression) -> bool
    decreases x,
{
    match x {
        Expression::Leaf { .. } => false,
        Expression::Unary { operand, .. } => converts(*operand),
        Expression::Binary { op, left, right, .. } => op is UnitConverter || converts(*left)
            || converts(*right),
        Expression::Measured { number, .. } => converts(*number),
        Expression::ByUnit { op, left, .. } => op is UnitConverter || converts(*left),
        Expression::Matrix { cells, .. } => exists|i: int|
            0 <= i < cells.len() && converts(#[trigger] cells[i]),
    }
}

/// The evaluation after an expression with value `v`: the value is on the stack, and it is
/// the result to prefer where there was an operation.
pub open spec fn after(e: EvaluationView, x: Expression, v: ResultView) -> EvaluationView {
    EvaluationView {
        stack: e.stack.push(v),
        there_was_unit_conversion: e.there_was_unit_conversion || converts(x),
        assignment: e.assignment,
        last: if operates(x) {
            Some(e.stack.len() as usize)
        } else {
            e.last
        },
        position: e.position + postfix(x).len(),
    }
}

/// The tokens from `from` on begin with `part`.
pub open spec fn stands_at(
    shunting: Seq<ShuntingYardResult>,
    from: nat,
    part: Seq<ShuntingYardResult>,
) -> bool {
    &&& from + part.len() <= shunting.len()
    &&& forall|i: int| 0 <= i < part.len() ==> shunting[from + i] == #[trigger] part[i]
}

proof fn lemma_stands_at_parts(
    shunting: Seq<ShuntingYardResult>,
    from: nat,
    first: Seq<ShuntingYardResult>,
    second: Seq<ShuntingYardResult>,
)
    requires
        stands_at(shunting, from, first + second),
    ensures
        stands_at(shunting, from, first),
        stands_at(shunting, from + first.len(), second),
{
    let whole = first + second;
    assert forall|i: int| 0 <= i < first.len() implies shunting[from + i] == #[trigger] first[i] by {
        assert(whole[i] == first[i]);
    }
    assert forall|i: int| 0 <= i < second.len() implies shunting[from + first.len() + i]
        == #[trigger] second[i] by {
        assert(whole[first.len() + i] == second[i]);
    }
}

proof fn lemma_stands_at_last(
    shunting: Seq<ShuntingYardResult>,
    from: nat,
    first: Seq<ShuntingYardResult>,
    token: ShuntingYardResult,
)
    requires
        stands_at(shunting, from, first.push(token)),
    ensures
        stands_at(shunting, from, first),
        from + first.len() < shunting.len(),
        shunting[(from + first.len()) as int] == token,
{
    let whole = first.push(token);
    assert(whole[first.len() as int] == token);
    assert forall|i: int| 0 <= i < first.len() implies shunting[from + i] == #[trigger] first[i] by {
        assert(whole[i] == first[i]);
    }
}

/// Taking an operator that succeeds.
proof fn lemma_operator(
    e: EvaluationView,
    tokens: Seq<Token>,
    shunting: Seq<ShuntingYardResult>,
    variables: Seq<Option<Variable>>,
    op: OperatorTokenType,
    index: usize,
)
    requires
        e.position < shunting.len(),
        shunting[e.position as int] == operator(op, index),
        op !is Assign,
        op !is Fn,
    ensures
        match applied(e.stack, op, index) {
            Some(stack) => run(e, tokens, shunting, variables) == run(
                EvaluationView {
                    there_was_unit_conversion: e.there_was_unit_conversion || op is UnitConverter,
                    ..e.advanced().operated(stack)
                },
                tokens,
                shunting,
                variables,
            ),
            None => run(e, tokens, shunting, variables).0 == ProgressView::Finished(Err(())),
        },
{
    let (taken, after) = step(e, tokens, shunting, variables);
    if let Some(stack) = applied(e.stack, op, index) {
        assert(after == tokens);
        assert(taken == Step::Next(
            EvaluationView {
                there_was_unit_conversion: e.there_was_unit_conversion || op is UnitConverter,
                ..e.advanced().operated(stack)
            },
        ));
    } else {
        assert(taken == Step::Failed);
    }
}

/// The tokens of an expression put its value on the stack; without a value they end the
/// evaluation.
pub open spec fn is_evaluated_in_place(
    x: Expression,
    e: EvaluationView,
    tokens: Seq<Token>,
    shunting: Seq<ShuntingYardResult>,
    variables: Seq<Option<Variable>>,
) -> bool {
    match value(x, variables) {
        Some(v) => run(e, tokens, shunting, variables) == run(
            after(e, x, v),
            tokens,
            shunting,
            variables,
        ),
        None => run(e, tokens, shunting, variables).0 == ProgressView::Finished(Err(())),
    }
}

proof fn lemma_leaf(
    token: ShuntingYardResult,
    e: EvaluationView,
    tokens: Seq<Token>,
    shunting: Seq<ShuntingYardResult>,
    variables: Seq<Option<Variable>>,
)
    requires
        is_proper(Expression::Leaf { token }),
        e.position < shunting.len(),
        shunting[e.position as int] == token,
    ensures
        is_evaluated_in_place(Expression::Leaf { token }, e, tokens, shunting, variables),
{
    let x = Expression::Leaf { token };
    let (taken, rest) = step(e, tokens, shunting, variables);
    if let Some(v) = leaf_value(token, variables) {
        assert(taken == Step::Next(e.pushed(v.typ, v.index)) && rest == tokens);
        assert(e.pushed(v.typ, v.index) =~= after(e, x, v));
    } else {
        assert(taken == Step::Failed);
    }
}

proof fn lemma_unary(
    x: Expression,
    e: EvaluationView,
    tokens: Seq<Token>,
    shunting: Seq<ShuntingYardResult>,
    variables: Seq<Option<Variable>>,
)
    requires
        x is Unary,
        is_proper(x),
        stands_at(shunting, e.position, postfix(x)),
    ensures
        is_evaluated_in_place(x, e, tokens, shunting, variables),
    decreases x, 0nat,
{
    if let Expression::Unary { op, index, operand } = x {
        lemma_stands_at_last(shunting, e.position, postfix(*operand), operator(op, index));
        lemma_expression(*operand, e, tokens, shunting, variables);
        if let Some(v) = value(*operand, variables) {
            let e1 = after(e, *operand, v);
            lemma_operator(e1, tokens, shunting, variables, op, index);
            if let Some(result) = unary(op, v, index) {
                let stack = e1.stack.take(e1.stack.len() - 1).push(result);
                assert(stack =~= e.stack.push(result));
                assert(EvaluationView {
                    there_was_unit_conversion: e1.there_was_unit_conversion || op is UnitConverter,
                    ..e1.advanced().operated(stack)
                } =~= after(e, x, result));
            }
        }
    }
}

proof fn lemma_binary(
    x: Expression,
    e: EvaluationView,
    tokens: Seq<Token>,
    shunting: Seq<ShuntingYardResult>,
    variables: Seq<Option<Variable>>,
)
    requires
        x is Binary,
        is_proper(x),
        stands_at(shunting, e.position, postfix(x)),
    ensures
        is_evaluated_in_place(x, e, tokens, shunting, variables),
    decreases x, 0nat,
{
    if let Expression::Binary { op, index, left, right } = x {
        let both = postfix(*left) + postfix(*right);
        lemma_stands_at_last(shunting, e.position, both, operator(op, index));
        lemma_stands_at_parts(shunting, e.position, postfix(*left), postfix(*right));
        lemma_expression(*left, e, tokens, shunting, variables);
        if let Some(l) = value(*left, variables) {
            let e1 = after(e, *left, l);
            lemma_expression(*right, e1, tokens, shunting, variables);
            if let Some(r) = value(*right, variables) {
                let e2 = after(e1, *right, r);
                lemma_operator(e2, tokens, shunting, variables, op, index);
                assert(e2.stack[e2.stack.len() - 2] == l && e2.stack[e2.stack.len() - 1] == r);
                if let Some(result) = binary(op, l, r) {
                    let stack = e2.stack.take(e2.stack.len() - 2).push(result);
                    assert(stack =~= e.stack.push(result));
                    assert(EvaluationView {
                        there_was_unit_conversion: e2.there_was_unit_conversion
                            || op is UnitConverter,
                        ..e2.advanced().operated(stack)
                    } =~= after(e, x, result));
                }
            }
        }
    }
}

proof fn lemma_measured(
    x: Expression,
    e: EvaluationView,
    tokens: Seq<Token>,
    shunting: Seq<ShuntingYardResult>,
    variables: Seq<Option<Variable>>,
)
    requires
        x is Measured,
        is_proper(x),
        stands_at(shunting, e.position, postfix(x)),
    ensures
        is_evaluated_in_place(x, e, tokens, shunting, variables),
    decreases x, 0nat,
{
    if let Expression::Measured { number, unit, unit_index } = x {
        let token = ShuntingYardResult {
            typ: TokenType::Unit(UnitTokenType::ApplyToPrevToken, unit),
            index_into_tokens: unit_index,
        };
        lemma_stands_at_last(shunting, e.position, postfix(*number), token);
        lemma_expression(*number, e, tokens, shunting, variables);
        if let Some(v) = value(*number, variables) {
            let e1 = after(e, *number, v);
            let (taken, rest) = step(e1, tokens, shunting, variables);
            assert(e1.stack[e1.stack.len() - 1] == v);
            if let Some(result) = value(x, variables) {
                let stack = e1.stack.take(e1.stack.len() - 1).push(result);
                assert(stack =~= e.stack.push(result));
                assert(taken == Step::Next(e1.advanced().operated(stack)) && rest == tokens);
                assert(e1.advanced().operated(stack) =~= after(e, x, result));
            } else {
                assert(taken == Step::Failed);
            }
        }
    }
}

proof fn lemma_by_unit(
    x: Expression,
    e: EvaluationView,
    tokens: Seq<Token>,
    shunting: Seq<ShuntingYardResult>,
    variables: Seq<Option<Variable>>,
)
    requires
        x is ByUnit,
        is_proper(x),
        stands_at(shunting, e.position, postfix(x)),
    ensures
        is_evaluated_in_place(x, e, tokens, shunting, variables),
    decreases x, 0nat,
{
    if let Expression::ByUnit { op, index, left, unit, unit_index } = x {
        let token = ShuntingYardResult {
            typ: TokenType::Unit(UnitTokenType::StandInItself, unit),
            index_into_tokens: unit_index,
        };
        lemma_stands_at_last(
            shunting,
            e.position,
            postfix(*left).push(token),
            operator(op, index),
        );
        lemma_stands_at_last(shunting, e.position, postfix(*left), token);
        lemma_expression(*left, e, tokens, shunting, variables);
        if let Some(l) = value(*left, variables) {
            let r = ResultView { typ: ValueView::Unit(unit@), index: unit_index, index2: None };
            let e1 = after(e, *left, l);
            assert(unit_is_operand(shunting, e1.position as int));
            let e2 = e1.pushed(r.typ, r.index);
            assert(step(e1, tokens, shunting, variables) == (Step::Next(e2), tokens));
            lemma_operator(e2, tokens, shunting, variables, op, index);
            assert(e2.stack[e2.stack.len() - 2] == l && e2.stack[e2.stack.len() - 1] == r);
            if let Some(result) = binary(op, l, r) {
                let stack = e2.stack.take(e2.stack.len() - 2).push(result);
                assert(stack =~= e.stack.push(result));
                assert(EvaluationView {
                    there_was_unit_conversion: e2.there_was_unit_conversion || op is UnitConverter,
                    ..e2.advanced().operated(stack)
                } =~= after(e, x, result));
            }
        }
    }
}

proof fn lemma_matrix(
    x: Expression,
    e: EvaluationView,
    tokens: Seq<Token>,
    shunting: Seq<ShuntingYardResult>,
    variables: Seq<Option<Variable>>,
)
    requires
        x is Matrix,
        is_proper(x),
        stands_at(shunting, e.position, postfix(x)),
    ensures
        is_evaluated_in_place(x, e, tokens, shunting, variables),
    decreases x, 0nat,
{
    if let Expression::Matrix { cells, row_count, col_count, index } = x {
        let op = OperatorTokenType::Matrix { row_count, col_count };
        let n = cells.len();
        lemma_stands_at_last(shunting, e.position, postfix_of_all(cells, n), operator(op, index));
        lemma_cells(cells, n, e, tokens, shunting, variables);
        let answers = values(cells, variables);
        assert(answers.take(n as int) =~= answers);
        if let Some(vs) = all_some(answers) {
            let e1 = after_all(e, cells, n, vs);
            lemma_operator(e1, tokens, shunting, variables, op, index);
            assert(e1.stack.take(e1.stack.len() - n) =~= e.stack);
            assert(e1.stack.skip(e1.stack.len() - n) =~= vs);
            let result = value(x, variables)->Some_0;
            let stack = e.stack.push(result);
            assert(applied(e1.stack, op, index) == Some(stack));
            assert(converts_any(cells, n) == converts(x));
            assert(EvaluationView {
                there_was_unit_conversion: e1.there_was_unit_conversion || op is UnitConverter,
                ..e1.advanced().operated(stack)
            } =~= after(e, x, result));
        }
    }
}

proof fn lemma_expression(
    x: Expression,
    e: EvaluationView,
    tokens: Seq<Token>,
    shunting: Seq<ShuntingYardResult>,
    variables: Seq<Option<Variable>>,
)
    requires
        is_proper(x),
        stands_at(shunting, e.position, postfix(x)),
    ensures
        is_evaluated_in_place(x, e, tokens, shunting, variables),
    decreases x, 1nat,
{
    match x {
        Expression::Leaf { token } => {
            assert(postfix(x)[0] == token);
            lemma_leaf(token, e, tokens, shunting, variables);
        },
        Expression::Unary { .. } => lemma_unary(x, e, tokens, shunting, variables),
        Expression::Binary { .. } => lemma_binary(x, e, tokens, shunting, variables),
        Expression::Measured { .. } => lemma_measured(x, e, tokens, shunting, variables),
        Expression::ByUnit { .. } => lemma_by_unit(x, e, tokens, shunting, variables),
        Expression::Matrix { .. } => lemma_matrix(x, e, tokens, shunting, variables),
    }
}

/// Whether one of the first `n` expressions holds a conversion.
spec fn converts_any(xs: Seq<Expression>, n: nat) -> bool {
    exists|i: int| 0 <= i < n && converts(#[trigger] xs[i])
}

/// The result to prefer after the first `n` expressions: that of the last operation.
spec fn last_after_all(
    last: Option<usize>,
    depth: nat,
    xs: Seq<Expression>,
    n: nat,
) -> Option<usize>
    decreases n,
{
    if n == 0 {
        last
    } else if operates(xs[n - 1]) {
        Some((depth + n - 1) as usize)
    } else {
        last_after_all(last, depth, xs, (n - 1) as nat)
    }
}

/// The evaluation after the first `n` expressions.
spec fn after_all(
    e: EvaluationView,
    xs: Seq<Expression>,
    n: nat,
    vs: Seq<ResultView>,
) -> EvaluationView {
    EvaluationView {
        stack: e.stack + vs,
        there_was_unit_conversion: e.there_was_unit_conversion || converts_any(xs, n),
        assignment: e.assignment,
        last: last_after_all(e.last, e.stack.len(), xs, n),
        position: e.position + postfix_of_all(xs, n).len(),
    }
}

#[verifier::rlimit(50)]
#[verifier::spinoff_prover]
proof fn lemma_cells(
    xs: Seq<Expression>,
    n: nat,
    e: EvaluationView,
    tokens: Seq<Token>,
    shunting: Seq<ShuntingYardResult>,
    variables: Seq<Option<Variable>>,
)
    requires
        n <= xs.len(),
        forall|i: int| 0 <= i < xs.len() ==> is_proper(#[trigger] xs[i]),
        stands_at(shunting, e.position, postfix_of_all(xs, n)),
    ensures
        match all_some(values(xs, variables).take(n as int)) {
            Some(vs) => run(e, tokens, shunting, variables) == run(
                after_all(e, xs, n, vs),
                tokens,
                shunting,
                variables,
            ),
            None => run(e, tokens, shunting, variables).0 == ProgressView::Finished(Err(())),
        },
    decreases xs, n,
{
    let answers = values(xs, variables);
    if n == 0 {
        assert(all_some(answers.take(0)) == Some(Seq::<ResultView>::empty())) by {
            assert(all_some(answers.take(0))->Some_0 =~= Seq::<ResultView>::empty());
        }
        assert(after_all(e, xs, 0, Seq::empty()) =~= e);
    } else {
        let k = (n - 1) as nat;
        let x = xs[n - 1];
        lemma_stands_at_parts(shunting, e.position, postfix_of_all(xs, k), postfix(x));
        lemma_cells(xs, k, e, tokens, shunting, variables);
        let some = answers.take(n as int);
        let fewer = answers.take(k as int);
        assert(some =~= fewer.push(value(x, variables)));
        if let Some(vs) = all_some(fewer) {
            let e1 = after_all(e, xs, k, vs);
            lemma_expression(x, e1, tokens, shunting, variables);
            if let Some(v) = value(x, variables) {
                assert forall|i: int| 0 <= i < some.len() implies (#[trigger] some[i]) is Some by {
                    if i < k {
                        assert(fewer[i] is Some);
                    }
                }
                assert(all_some(some)->Some_0 =~= vs.push(v)) by {
                    assert forall|i: int| 0 <= i < some.len() implies all_some(some)->Some_0[i]
                        == vs.push(v)[i] by {
                        if i < k {
                            assert(some[i] == fewer[i]);
                        }
                    }
                }
                assert(e1.stack.push(v) =~= e.stack + vs.push(v));
                assert(converts_any(xs, n) == (converts_any(xs, k) || converts(x)));
                assert(after(e1, x, v) =~= after_all(e, xs, n, vs.push(v)));
            } else {
                assert(some[k as int] is None);
                assert(all_some(some) is None);
            }
        } else {
            let i = choose|i: int| 0 <= i < fewer.len() && (#[trigger] fewer[i]) is None;
            assert(some[i] is None);
            assert(all_some(some) is None);
        }
    }
}

/// An expression that is evaluated alone has its value as the answer, tells whether there was
/// an operation and a conversion, and leaves the tokens of the text as they are. An
/// expression without a value fails.
pub proof fn law_expressions_have_their_values(
    x: Expression,
    tokens: Seq<Token>,
    variables: Seq<Option<Variable>>,
)
    requires
        is_proper(x),
    ensures
        match value(x, variables) {
            Some(v) => run(EvaluationView::start(), tokens, postfix(x), variables) == (
                ProgressView::Finished(
                    Ok(
                        Some(
                            AnswerView {
                                there_was_unit_conversion: converts(x),
                                there_was_operation: operates(x),
                                assignment: false,
                                result: v,
                            },
                        ),
                    ),
                ),
                tokens,
            ),
            None => run(EvaluationView::start(), tokens, postfix(x), variables).0
                == ProgressView::Finished(Err(())),
        },
{
    let e = EvaluationView::start();
    lemma_expression(x, e, tokens, postfix(x), variables);
    if let Some(v) = value(x, variables) {
        let end = after(e, x, v);
        assert(run(end, tokens, postfix(x), variables) == finished(end, tokens));
        assert(end.stack.last() == v);
        assert(all_but_one_to_text(tokens, end.stack, 0, 1) == tokens) by {
            reveal_with_fuel(all_but_one_to_text, 2);
        }
    }
}

/// An expression in the midst of others puts its value on the stack, whatever is there.
pub proof fn law_expressions_are_evaluated_in_place(
    x: Expression,
    e: EvaluationView,
    tokens: Seq<Token>,
    shunting: Seq<ShuntingYardResult>,
    variables: Seq<Option<Variable>>,
)
    requires
        is_proper(x),
        stands_at(shunting, e.position, postfix(x)),
    ensures
        is_evaluated_in_place(x, e, tokens, shunting, variables),
{
    lemma_expression(x, e, tokens, shunting, variables);
}

} // verus!
