//! Tokens of an expression, in the order of the text and in postfix order.
use crate::decimal::Decimal;
use crate::units::UnitOutput;
use crate::value::CalcResult;
use crate::value::ResultView;
use vstd::prelude::*;

verus! {

/// Which function an expression calls.
#[derive(Clone, Copy, Debug, PartialEq, Eq)]
pub enum FnType {
    Abs,
    Nth,
    Sum,
    Transpose,
    Pi,
    E,
    Ln,
    Lg,
    Log,
    Cos,
    Sin,
    Acos,
    Asin,
    Tan,
    Atan,
    Ceil,
}

#[allow(non_camel_case_types)]
#[derive(Clone, Copy, Debug, PartialEq, Eq)]
pub enum OperatorTokenType {
    Comma,
    Add,
    UnaryPlus,
    Sub,
    UnaryMinus,
    Mult,
    Div,
    Perc,
    BinAnd,
    BinOr,
    BinXor,
    BinNot,
    Pow,
    ParenOpen,
    ParenClose,
    BracketOpen,
    BracketClose,
    ShiftLeft,
    ShiftRight,
    Assign,
    UnitConverter,
    Semicolon,
    Matrix { row_count: usize, col_count: usize },
    Fn { arg_count: usize, typ: FnType },
    PercentageIs,
    Percentage_Find_Base_From_Result_Increase_X,
    Percentage_Find_Base_From_X_Icrease_Result,
    Percentage_Find_Base_From_Icrease_X_Result,
    Percentage_Find_Incr_Rate_From_Result_X_Base,
    Percentage_Find_Base_From_Result_Decrease_X,
    Percentage_Find_Base_From_X_Decrease_Result,
    Percentage_Find_Base_From_Decrease_X_Result,
    Percentage_Find_Decr_Rate_From_Result_X_Base,
    Percentage_Find_Rate_From_Result_Base,
    Percentage_Find_Base_From_Result_Rate,
}

/// Whether a unit follows a number or stands alone, as the target of a conversion does.
#[derive(Clone, Copy, Debug, PartialEq, Eq)]
pub enum UnitTokenType {
    ApplyToPrevToken,
    StandInItself,
}

#[derive(Clone, Debug, PartialEq, Eq)]
pub enum TokenType {
    StringLiteral,
    Header,
    Variable { var_index: usize },
    LineReference { var_index: usize },
    NumberLiteral(Decimal),
    NumberErr,
    Operator(OperatorTokenType),
    Unit(UnitTokenType, UnitOutput),
}

/// A token of the text.
#[derive(Clone, Debug, PartialEq, Eq)]
pub struct Token {
    pub typ: TokenType,
    pub has_error: bool,
}

/// A token in postfix order, and which token of the text it is.
#[derive(Clone, Debug)]
pub struct ShuntingYardResult {
    pub typ: TokenType,
    pub index_into_tokens: usize,
}

impl ShuntingYardResult {
    pub fn new(typ: TokenType, index_into_tokens: usize) -> (r: ShuntingYardResult)
        ensures
            r.typ == typ,
            r.index_into_tokens == index_into_tokens,
    {
        ShuntingYardResult { typ, index_into_tokens }
    }
}

/// The tokens with the one at `index` marked as wrong, where there is such a token.
pub open spec fn flagged(tokens: Seq<Token>, index: usize) -> Seq<Token> {
    if index < tokens.len() {
        tokens.update(index as int, Token { has_error: true, ..tokens[index as int] })
    } else {
        tokens
    }
}

/// The tokens with those that a value stands for marked as wrong.
pub open spec fn flagged_for(tokens: Seq<Token>, r: ResultView) -> Seq<Token> {
    match r.index2 {
        Some(index2) => flagged(flagged(tokens, r.index), index2),
        None => flagged(tokens, r.index),
    }
}

/// The tokens with the one at `index` turned into plain text, where there is such a token.
pub open spec fn turned_to_text(tokens: Seq<Token>, index: usize) -> Seq<Token> {
    if index < tokens.len() {
        tokens.update(index as int, Token { typ: TokenType::StringLiteral, ..tokens[index as int] })
    } else {
        tokens
    }
}

impl Token {
    pub fn set_token_error_flag_by_index(index: usize, tokens: &mut Vec<Token>)
        ensures
            final(tokens)@ == flagged(old(tokens)@, index),
    {
        if index < tokens.len() {
            tokens[index].has_error = true;
        }
    }

    /// Turns a token into plain text.
    pub(crate) fn turn_to_text(index: usize, tokens: &mut Vec<Token>)
        requires
            index < old(tokens).len(),
        ensures
            final(tokens)@ == turned_to_text(old(tokens)@, index),
    {
        tokens[index].typ = TokenType::StringLiteral;
    }
}

impl CalcResult {
    /// Marks the tokens that the value stands for as wrong.
    pub fn set_token_error_flag(&self, tokens: &mut Vec<Token>)
        ensures
            final(tokens)@ == flagged_for(old(tokens)@, self@),
    {
        Token::set_token_error_flag_by_index(self.index_into_tokens, tokens);
        if let Some(index2) = self.index2_into_tokens {
            Token::set_token_error_flag_by_index(index2, tokens);
        }
    }
}

/// A variable of the document, and the value of an earlier line.
#[derive(Debug)]
pub struct Variable {
    pub name: String,
    pub value: Result<CalcResult, ()>,
}

} // verus!
