use vstd::prelude::*;

use crate::bi_operator::BiOperator;
use crate::expression::{expression_model, expression_models, Expression, ExpressionModel};
use crate::grammar::{
    arg_list_at, args_at, block_at, chain_at, climb, expr_at, kind_at, program_at,
    statement_at, statements_at, value_at,
};
use crate::lexer::{within, Token, TokenKind};
use crate::statement::{statement_model, statements_model, Statement, StatementModel};

verus! {

spec fn expr_agrees(r: Result<(Expression, usize), usize>, m: Result<(ExpressionModel, int), int>) -> bool {
    match (r, m) {
        (Ok((e, q)), Ok((me, mq))) => expression_model(&e) == me && q == mq,
        (Err(x), Err(y)) => x == y,
        _ => false,
    }
}

spec fn exprs_agree(
    r: Result<(Vec<Expression>, usize), usize>,
    m: Result<(Seq<ExpressionModel>, int), int>,
) -> bool {
    match (r, m) {
        (Ok((es, q)), Ok((ms, mq))) => expression_models(es@) == ms && q == mq,
        (Err(x), Err(y)) => x == y,
        _ => false,
    }
}

spec fn chain_agrees(
    r: Result<(Vec<Expression>, Vec<BiOperator>, usize), usize>,
    m: Result<(Seq<ExpressionModel>, Seq<BiOperator>, int), int>,
) -> bool {
    match (r, m) {
        (Ok((es, os, q)), Ok((ms, mos, mq))) => expression_models(es@) == ms && os@ == mos && q
            == mq,
        (Err(x), Err(y)) => x == y,
        _ => false,
    }
}

spec fn stmt_agrees(r: Result<(Statement, usize), usize>, m: Result<(StatementModel, int), int>) -> bool {
    match (r, m) {
        (Ok((st, q)), Ok((ms, mq))) => statement_model(&st) == ms && q == mq,
        (Err(x), Err(y)) => x == y,
        _ => false,
    }
}

spec fn stmts_agree(
    r: Result<(Vec<Statement>, usize), usize>,
    m: Result<(Seq<StatementModel>, int), int>,
) -> bool {
    match (r, m) {
        (Ok((ss, q)), Ok((ms, mq))) => statements_model(ss@) == ms && q == mq,
        (Err(x), Err(y)) => x == y,
        _ => false,
    }
}

/// The parser's input: the source and its tokens.
pub struct Input<'a> {
    pub code: &'a str,
    pub tokens: &'a Vec<Token>,
}

impl<'a> Input<'a> {
    pub open spec fn wf(&self) -> bool {
        within(self.code@, self.tokens@)
    }

    pub open spec fn s(&self) -> Seq<char> {
        self.code@
    }

    pub open spec fn t(&self) -> Seq<Token> {
        self.tokens@
    }

    fn kind(&self, p: usize) -> (r: Option<TokenKind>)
        ensures
            r == kind_at(self.t(), p as int),
            r is Some ==> p < self.t().len() <= usize::MAX,
    {
        if p < self.tokens.len() {
            Some(self.tokens[p].kind)
        } else {
            None
        }
    }

    fn text(&self, start: usize, end: usize) -> (r: String)
        requires
            start <= end <= self.s().len(),
        ensures
            r@ == self.s().subrange(start as int, end as int),
    {
        self.code.substring_char(start, end).to_owned()
    }

    fn value(&self, p: usize) -> (r: Result<(Expression, usize), usize>)
        requires
            self.wf(),
            p <= self.t().len(),
        ensures
            expr_agrees(r, value_at(self.s(), self.t(), p as int)),
            r matches Ok((_, q)) ==> p < q <= self.t().len(),
        decreases self.t().len() - p, 0int,
    {
        if p >= self.tokens.len() {
            return Err(p);
        }
        let tok = self.tokens[p];
        match tok.kind {
            TokenKind::Number => Ok((Expression::Number(self.text(tok.start, tok.end)), p + 1)),
            TokenKind::Operator(BiOperator::Subtract) => {
                if self.kind(p + 1) == Some(TokenKind::Number) && self.tokens[p + 1].start
                    == tok.end {
                    let text = self.text(tok.start, self.tokens[p + 1].end);
                    Ok((Expression::Number(text), p + 2))
                } else {
                    Err(p)
                }
            },
            TokenKind::True => Ok((Expression::Boolean(true), p + 1)),
            TokenKind::False => Ok((Expression::Boolean(false), p + 1)),
            TokenKind::Identifier => {
                let name = self.text(tok.start, tok.end);
                if self.kind(p + 1) == Some(TokenKind::OpenParen) {
                    match self.args(p + 2) {
                        Ok((args, q)) => {
                            let e = Expression::Function(name, args);
                            proof {
                                assert(expression_models(args@) =~= match expression_model(&e) {
                                    ExpressionModel::Call(_, ms) => ms,
                                    _ => Seq::empty(),
                                });
                            }
                            Ok((e, q))
                        },
                        Err(x) => Err(x),
                    }
                } else {
                    Ok((Expression::Variable(name), p + 1))
                }
            },
            TokenKind::OpenParen => match self.expression(p + 1) {
                Ok((e, q)) => {
                    if self.kind(q) == Some(TokenKind::CloseParen) {
                        Ok((Expression::BracketExpression(Box::new(e)), q + 1))
                    } else {
                        Err(q)
                    }
                },
                Err(x) => Err(x),
            },
            _ => Err(p),
        }
    }

    fn chain(&self, p: usize) -> (r: Result<(Vec<Expression>, Vec<BiOperator>, usize), usize>)
        requires
            self.wf(),
            p <= self.t().len(),
        ensures
            chain_agrees(r, chain_at(self.s(), self.t(), p as int)),
            r matches Ok((rs, os, q)) ==> p <= q <= self.t().len() && rs@.len() == os@.len(),
        decreases self.t().len() - p, 1int,
    {
        match self.kind(p) {
            Some(TokenKind::Operator(op)) => match self.value(p + 1) {
                Ok((v, q)) => match self.chain(q) {
                    Ok((mut vs, mut os, r)) => {
                        let ghost before = vs@;
                        let ghost ops_before = os@;
                        let ghost v_model = expression_model(&v);
                        vs.insert(0, v);
                        os.insert(0, op);
                        proof {
                            assert(expression_models(vs@) =~= seq![v_model] + expression_models(
                                before,
                            ));
                            assert(os@ =~= seq![op] + ops_before);
                        }
                        Ok((vs, os, r))
                    },
                    Err(x) => Err(x),
                },
                Err(x) => Err(x),
            },
            _ => {
                let vs: Vec<Expression> = Vec::new();
                let os: Vec<BiOperator> = Vec::new();
                proof {
                    assert(expression_models(vs@) =~= Seq::empty());
                    assert(os@ =~= Seq::empty());
                }
                Ok((vs, os, p))
            },
        }
    }

    fn expression(&self, p: usize) -> (r: Result<(Expression, usize), usize>)
        requires
            self.wf(),
            p <= self.t().len(),
        ensures
            expr_agrees(r, expr_at(self.s(), self.t(), p as int)),
            r matches Ok((_, q)) ==> p < q <= self.t().len(),
        decreases self.t().len() - p, 2int,
    {
        match self.value(p) {
            Ok((first, q)) => match self.chain(q) {
                Ok((mut rs, mut os, r)) => Ok((climb_exec(first, &mut rs, &mut os, 0), r)),
                Err(x) => Err(x),
            },
            Err(x) => Err(x),
        }
    }

    fn arg_list(&self, p: usize) -> (r: Result<(Vec<Expression>, usize), usize>)
        requires
            self.wf(),
            p <= self.t().len(),
        ensures
            exprs_agree(r, arg_list_at(self.s(), self.t(), p as int)),
            r matches Ok((_, q)) ==> p < q <= self.t().len(),
        decreases self.t().len() - p, 3int,
    {
        match self.expression(p) {
            Ok((e, q)) => match self.kind(q) {
                Some(TokenKind::Comma) => match self.arg_list(q + 1) {
                    Ok((mut es, r)) => {
                        let ghost before = es@;
                        let ghost m = expression_model(&e);
                        es.insert(0, e);
                        proof {
                            assert(expression_models(es@) =~= seq![m] + expression_models(before));
                        }
                        Ok((es, r))
                    },
                    Err(x) => Err(x),
                },
                Some(TokenKind::CloseParen) => {
                    let ghost m = expression_model(&e);
                    let es = vec![e];
                    proof {
                        assert(expression_models(es@) =~= seq![m]);
                    }
                    Ok((es, q + 1))
                },
                _ => Err(q),
            },
            Err(x) => Err(x),
        }
    }

    fn args(&self, p: usize) -> (r: Result<(Vec<Expression>, usize), usize>)
        requires
            self.wf(),
            p <= self.t().len(),
        ensures
            exprs_agree(r, args_at(self.s(), self.t(), p as int)),
            r matches Ok((_, q)) ==> p < q <= self.t().len(),
        decreases self.t().len() - p, 4int,
    {
        if self.kind(p) == Some(TokenKind::CloseParen) {
            let es: Vec<Expression> = Vec::new();
            proof {
                assert(expression_models(es@) =~= Seq::empty());
            }
            Ok((es, p + 1))
        } else {
            self.arg_list(p)
        }
    }
}

/// Precedence climbing over `left (os[i] rs[i])*`: takes from the front of
/// `rs` and `os` the operators that rank above `min`, and their operands.
fn climb_exec(
    left: Expression,
    rs: &mut Vec<Expression>,
    os: &mut Vec<BiOperator>,
    min: u8,
) -> (r: Expression)
    requires
        old(rs)@.len() == old(os)@.len(),
    ensures
        (expression_model(&r), expression_models(final(rs)@), final(os)@) == climb(
            expression_model(&left),
            expression_models(old(rs)@),
            old(os)@,
            min as nat,
        ),
        final(rs)@.len() == final(os)@.len(),
        final(os)@.len() <= old(os)@.len(),
    decreases old(os)@.len(),
{
    if os.len() == 0 || os[0].precedence() <= min {
        return left;
    }
    let ghost rs0 = rs@;
    let ghost os0 = os@;
    let op = os.remove(0);
    let first = rs.remove(0);
    proof {
        assert(expression_models(rs@) =~= expression_models(rs0).drop_first());
        assert(os@ =~= os0.drop_first());
    }
    let right = climb_exec(first, rs, os, op.precedence());
    let joined = Expression::BinaryExpression(Box::new(left), op, Box::new(right));
    climb_exec(joined, rs, os, min)
}

pub open spec fn program_agrees(
    r: Result<Vec<Statement>, usize>,
    m: Result<Seq<StatementModel>, int>,
) -> bool {
    match (r, m) {
        (Ok(ss), Ok(ms)) => statements_model(ss@) == ms,
        (Err(x), Err(y)) => x == y,
        _ => false,
    }
}

impl<'a> Input<'a> {
    fn block(&self, p: usize) -> (r: Result<(Statement, usize), usize>)
        requires
            self.wf(),
            p <= self.t().len(),
        ensures
            stmt_agrees(r, block_at(self.s(), self.t(), p as int)),
            r matches Ok((_, q)) ==> p < q <= self.t().len(),
        decreases self.t().len() - p, 0int,
    {
        if self.kind(p) == Some(TokenKind::OpenBrace) {
            match self.statements(p + 1) {
                Ok((body, q)) => {
                    let st = Statement::CodeBlock(body);
                    proof {
                        assert(statements_model(body@) =~= match statement_model(&st) {
                            StatementModel::Block(ms) => ms,
                            _ => Seq::empty(),
                        });
                    }
                    Ok((st, q))
                },
                Err(x) => Err(x),
            }
        } else {
            Err(p)
        }
    }

    fn statement(&self, p: usize) -> (r: Result<(Statement, usize), usize>)
        requires
            self.wf(),
            p <= self.t().len(),
        ensures
            stmt_agrees(r, statement_at(self.s(), self.t(), p as int)),
            r matches Ok((_, q)) ==> p < q <= self.t().len(),
        decreases self.t().len() - p, 1int,
    {
        match self.kind(p) {
            Some(TokenKind::Let) => {
                if self.kind(p + 1) == Some(TokenKind::Identifier) && self.kind(p + 2) == Some(
                    TokenKind::Assign,
                ) {
                    let name_token = self.tokens[p + 1];
                    match self.expression(p + 3) {
                        Ok((e, q)) => {
                            if self.kind(q) == Some(TokenKind::Semicolon) {
                                let name = self.text(name_token.start, name_token.end);
                                Ok((Statement::Assignment(name, e), q + 1))
                            } else {
                                Err(q)
                            }
                        },
                        Err(x) => Err(x),
                    }
                } else if self.kind(p + 1) == Some(TokenKind::Identifier) {
                    Err(p + 2)
                } else {
                    Err(p + 1)
                }
            },
            Some(TokenKind::Identifier) => {
                if self.kind(p + 1) == Some(TokenKind::OpenParen) {
                    let name_token = self.tokens[p];
                    match self.args(p + 2) {
                        Ok((args, q)) => {
                            if self.kind(q) == Some(TokenKind::Semicolon) {
                                let name = self.text(name_token.start, name_token.end);
                                let call = Expression::Function(name, args);
                                proof {
                                    assert(expression_models(args@) =~= match expression_model(
                                        &call,
                                    ) {
                                        ExpressionModel::Call(_, ms) => ms,
                                        _ => Seq::empty(),
                                    });
                                }
                                Ok((Statement::FunctionCall(call), q + 1))
                            } else {
                                Err(q)
                            }
                        },
                        Err(x) => Err(x),
                    }
                } else {
                    Err(p + 1)
                }
            },
            Some(TokenKind::If) => match self.expression(p + 1) {
                Ok((cond, q)) => match self.block(q) {
                    Ok((body, r)) => {
                        if self.kind(r) == Some(TokenKind::Else) {
                            match self.block(r + 1) {
                                Ok((else_body, u)) => Ok(
                                    (
                                        Statement::Conditional(
                                            cond,
                                            Box::new(body),
                                            Some(Box::new(else_body)),
                                        ),
                                        u,
                                    ),
                                ),
                                Err(x) => Err(x),
                            }
                        } else {
                            Ok((Statement::Conditional(cond, Box::new(body), None), r))
                        }
                    },
                    Err(x) => Err(x),
                },
                Err(x) => Err(x),
            },
            Some(TokenKind::While) => match self.expression(p + 1) {
                Ok((cond, q)) => match self.block(q) {
                    Ok((body, r)) => Ok((Statement::Loop(cond, Box::new(body)), r)),
                    Err(x) => Err(x),
                },
                Err(x) => Err(x),
            },
            Some(TokenKind::OpenBrace) => self.block(p),
            _ => Err(p),
        }
    }

    fn statements(&self, p: usize) -> (r: Result<(Vec<Statement>, usize), usize>)
        requires
            self.wf(),
            p <= self.t().len(),
        ensures
            stmts_agree(r, statements_at(self.s(), self.t(), p as int)),
            r matches Ok((_, q)) ==> p < q <= self.t().len(),
        decreases self.t().len() - p, 2int,
    {
        if p >= self.tokens.len() {
            Err(p)
        } else if self.tokens[p].kind == TokenKind::CloseBrace {
            let ss: Vec<Statement> = Vec::new();
            proof {
                assert(statements_model(ss@) =~= Seq::empty());
            }
            Ok((ss, p + 1))
        } else {
            match self.statement(p) {
                Ok((st, q)) => match self.statements(q) {
                    Ok((mut rest, r)) => {
                        let ghost before = rest@;
                        let ghost m = statement_model(&st);
                        rest.insert(0, st);
                        proof {
                            assert(statements_model(rest@) =~= seq![m] + statements_model(before));
                        }
                        Ok((rest, r))
                    },
                    Err(x) => Err(x),
                },
                Err(x) => Err(x),
            }
        }
    }

    /// The statements from `p` to the end of the input.
    pub fn program(&self, p: usize) -> (r: Result<Vec<Statement>, usize>)
        requires
            self.wf(),
            p <= self.t().len(),
        ensures
            program_agrees(r, program_at(self.s(), self.t(), p as int)),
    {
        let mut out: Vec<Statement> = Vec::new();
        let mut i = p;
        while i < self.tokens.len()
            invariant
                self.wf(),
                p <= i <= self.t().len(),
                program_at(self.s(), self.t(), p as int) == glue(
                    statements_model(out@),
                    program_at(self.s(), self.t(), i as int),
                ),
            decreases self.t().len() - i,
        {
            match self.statement(i) {
                Ok((st, q)) => {
                    let ghost before = out@;
                    let ghost m = statement_model(&st);
                    out.push(st);
                    proof {
                        assert(statements_model(out@) =~= statements_model(before).push(m));
                        lemma_glue_step(
                            statements_model(before),
                            m,
                            program_at(self.s(), self.t(), q as int),
                        );
                    }
                    i = q;
                },
                Err(x) => {
                    return Err(x);
                },
            }
        }
        proof {
            assert(statements_model(out@) + Seq::<StatementModel>::empty() =~= statements_model(
                out@,
            ));
        }
        Ok(out)
    }
}

/// What the statements read so far and the statements of the rest make
/// together.
spec fn glue(
    done: Seq<StatementModel>,
    rest: Result<Seq<StatementModel>, int>,
) -> Result<Seq<StatementModel>, int> {
    match rest {
        Ok(ms) => Ok(done + ms),
        Err(x) => Err(x),
    }
}

proof fn lemma_glue_step(
    done: Seq<StatementModel>,
    m: StatementModel,
    rest: Result<Seq<StatementModel>, int>,
)
    ensures
        glue(
            done,
            match rest {
                Ok(ms) => Ok(seq![m] + ms),
                Err(x) => Err(x),
            },
        ) == glue(done.push(m), rest),
{
    if let Ok(ms) = rest {
        assert(done + (seq![m] + ms) =~= done.push(m) + ms);
    }
}

} // verus!
