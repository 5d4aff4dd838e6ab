use vstd::prelude::*;

use crate::bi_operator::BiOperator;

verus! {

/// The built-in functions.
#[derive(Debug, Clone, Copy, PartialEq, Eq, Structural)]
pub enum Function {
    Sin,
    Cos,
    Tan,
    Asin,
    Acos,
    Atan,
    Print,
}

/// An expression of the language. A number literal is kept as it is
/// written (an optional `-`, digits, and optionally `.` and digits); the host
/// reads it as an IEEE-754 double when the expression is evaluated.
#[derive(Debug)]
pub enum Expression {
    Number(String),
    Boolean(bool),
    BinaryExpression(Box<Expression>, BiOperator, Box<Expression>),
    BracketExpression(Box<Expression>),
    Function(String, Vec<Expression>),
    Variable(String),
}

/// An expression with its names and literals as character sequences.
pub enum ExpressionModel {
    Number(Seq<char>),
    Boolean(bool),
    Binary(Box<ExpressionModel>, BiOperator, Box<ExpressionModel>),
    Bracket(Box<ExpressionModel>),
    Call(Seq<char>, Seq<ExpressionModel>),
    Variable(Seq<char>),
}

/// The model of an expression.
pub open spec fn expression_model(e: &Expression) -> ExpressionModel
    decreases e,
{
    match e {
        Expression::Number(text) => ExpressionModel::Number(text@),
        Expression::Boolean(b) => ExpressionModel::Boolean(*b),
        Expression::BinaryExpression(left, op, right) => ExpressionModel::Binary(
            Box::new(expression_model(left)),
            *op,
            Box::new(expression_model(right)),
        ),
        Expression::BracketExpression(inner) => ExpressionModel::Bracket(
            Box::new(expression_model(inner)),
        ),
        Expression::Function(name, args) => ExpressionModel::Call(
            name@,
            Seq::new(
                args@.len(),
                |i: int|
                    if 0 <= i < args@.len() {
                        expression_model(&args@[i])
                    } else {
                        ExpressionModel::Boolean(false)
                    },
            ),
        ),
        Expression::Variable(name) => ExpressionModel::Variable(name@),
    }
}

} // verus!

verus! {

/// The models of a sequence of expressions.
pub open spec fn expression_models(es: Seq<Expression>) -> Seq<ExpressionModel> {
    Seq::new(es.len(), |i: int| expression_model(&es[i]))
}

} // verus!
