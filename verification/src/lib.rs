//! The calculation core of a note-taking calculator: values with units, percentages and
//! matrices, the operators on them, and the evaluation of expressions in postfix order.
//!
//! Contracts speak of the views of values: a [`decimal::DecimalView`] is a sign, a mantissa
//! and a scale, a [`units::UnitView`] a list of factors and the power of each dimension, and
//! a [`value::ResultView`] a tree of these.
pub mod addition;
pub mod arithmetic;
pub mod bit_laws;
pub mod bitwise;
pub mod decimal;
pub mod decimal_laws;
pub mod division;
pub mod evaluation;
pub mod evaluation_laws;
pub mod exact;
pub mod expression;
pub mod matrix_laws;
pub mod measure_laws;
pub mod multiplication;
pub mod operation;
pub mod operator_laws;
pub mod percentage;
pub mod percentage_laws;
pub mod power;
pub mod power_laws;
pub mod question_laws;
pub mod scalar_laws;
pub mod shape;
pub mod subtraction;
pub mod token;
pub mod unit_laws;
pub mod units;
pub mod value;
pub mod value_laws;

pub use addition::add_op;
pub use decimal::dec;
pub use division::divide_op;
pub use evaluation::evaluate_tokens;
pub use evaluation::resume_evaluation;
pub use evaluation::EvaluationResult;
pub use multiplication::multiply_op;
pub use power::pow;
pub use token::ShuntingYardResult;
pub use value::CalcResult;
pub use value::CalcResultType;
