use vstd::prelude::*;

use crate::expression::{expression_model, Expression, ExpressionModel};

verus! {

/// A statement of the language.
#[derive(Debug)]
pub enum Statement {
    /// A call made for its effect; its value is dropped.
    FunctionCall(Expression),
    Assignment(String, Expression),
    Conditional(Expression, Box<Statement>, Option<Box<Statement>>),
    Loop(Expression, Box<Statement>),
    CodeBlock(Vec<Statement>),
}

/// A statement with its names as character sequences.
pub enum StatementModel {
    Call(ExpressionModel),
    Assign(Seq<char>, ExpressionModel),
    Conditional(ExpressionModel, Box<StatementModel>, Option<Box<StatementModel>>),
    Loop(ExpressionModel, Box<StatementModel>),
    Block(Seq<StatementModel>),
}

/// The model of a statement.
pub open spec fn statement_model(s: &Statement) -> StatementModel
    decreases s,
{
    match s {
        Statement::FunctionCall(e) => StatementModel::Call(expression_model(e)),
        Statement::Assignment(name, e) => StatementModel::Assign(name@, expression_model(e)),
        Statement::Conditional(cond, body, else_body) => StatementModel::Conditional(
            expression_model(cond),
            Box::new(statement_model(body)),
            match else_body {
                Some(b) => Some(Box::new(statement_model(b))),
                None => None,
            },
        ),
        Statement::Loop(cond, body) => StatementModel::Loop(
            expression_model(cond),
            Box::new(statement_model(body)),
        ),
        Statement::CodeBlock(stmts) => StatementModel::Block(
            Seq::new(
                stmts@.len(),
                |i: int|
                    if 0 <= i < stmts@.len() {
                        statement_model(&stmts@[i])
                    } else {
                        StatementModel::Block(Seq::empty())
                    },
            ),
        ),
    }
}

/// The models of a sequence of statements.
pub open spec fn statements_model(stmts: Seq<Statement>) -> Seq<StatementModel> {
    Seq::new(stmts.len(), |i: int| statement_model(&stmts[i]))
}

} // verus!
