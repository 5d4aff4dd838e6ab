use vstd::prelude::*;

use crate::bi_operator::{rank, BiOperator};
use crate::expression::ExpressionModel;
use crate::lexer::{lex, within, Token, TokenKind};
use crate::statement::StatementModel;

verus! {

/// The kind of the token at `p`, if there is one.
pub open spec fn kind_at(t: Seq<Token>, p: int) -> Option<TokenKind> {
    if 0 <= p < t.len() {
        Some(t[p].kind)
    } else {
        None
    }
}

/// The characters that a token spans.
pub open spec fn text(s: Seq<char>, tok: Token) -> Seq<char> {
    s.subrange(tok.start as int, tok.end as int)
}

/// Precedence climbing over `left (os[i] rs[i])*`, taking only operators
/// that rank above `min`. While the next operator `op` does, its right
/// operand is the tree of the operand after it together with the following
/// operators that rank above `op`; `left op right` then becomes the left
/// operand, so that equal ranks group to the left. Gives the tree and the
/// operands and operators that were not taken.
pub open spec fn climb(
    left: ExpressionModel,
    rs: Seq<ExpressionModel>,
    os: Seq<BiOperator>,
    min: nat,
) -> (ExpressionModel, Seq<ExpressionModel>, Seq<BiOperator>)
    decreases os.len(),
{
    if os.len() == 0 || rs.len() == 0 || rank(os[0]) <= min {
        (left, rs, os)
    } else {
        let op = os[0];
        let (right, rs_rest, os_rest) = climb(rs[0], rs.drop_first(), os.drop_first(), rank(op));
        if os_rest.len() >= os.len() {
            (left, rs, os)
        } else {
            climb(ExpressionModel::Binary(Box::new(left), op, Box::new(right)), rs_rest, os_rest, min)
        }
    }
}

/// The tree of the flat sequence `first (os[i] rs[i])*`.
pub open spec fn nest(
    first: ExpressionModel,
    rs: Seq<ExpressionModel>,
    os: Seq<BiOperator>,
) -> ExpressionModel {
    climb(first, rs, os, 0).0
}

/// An operand at `p`: a number (a `-` right before its digits makes it
/// negative), `true`, `false`, a call, a variable, or an expression in
/// parentheses. Gives the operand and the position after it, or the
/// position at which the input fails.
pub open spec fn value_at(
    s: Seq<char>,
    t: Seq<Token>,
    p: int,
) -> Result<(ExpressionModel, int), int>
    decreases t.len() - p, 0int,
{
    if p < 0 || p >= t.len() {
        Err(p)
    } else {
        match t[p].kind {
            TokenKind::Number => Ok((ExpressionModel::Number(text(s, t[p])), p + 1)),
            TokenKind::Operator(BiOperator::Subtract) => {
                if kind_at(t, p + 1) == Some(TokenKind::Number) && t[p + 1].start == t[p].end {
                    Ok((ExpressionModel::Number(s.subrange(t[p].start as int, t[p + 1].end as int)), p + 2))
                } else {
                    Err(p)
                }
            },
            TokenKind::True => Ok((ExpressionModel::Boolean(true), p + 1)),
            TokenKind::False => Ok((ExpressionModel::Boolean(false), p + 1)),
            TokenKind::Identifier => {
                if kind_at(t, p + 1) == Some(TokenKind::OpenParen) {
                    match args_at(s, t, p + 2) {
                        Ok((args, q)) => Ok((ExpressionModel::Call(text(s, t[p]), args), q)),
                        Err(e) => Err(e),
                    }
                } else {
                    Ok((ExpressionModel::Variable(text(s, t[p])), p + 1))
                }
            },
            TokenKind::OpenParen => match expr_at(s, t, p + 1) {
                Ok((e, q)) => if kind_at(t, q) == Some(TokenKind::CloseParen) {
                    Ok((ExpressionModel::Bracket(Box::new(e)), q + 1))
                } else {
                    Err(q)
                },
                Err(e) => Err(e),
            },
            _ => Err(p),
        }
    }
}

/// The operators and operands `(operator operand)*` from `p` on.
pub open spec fn chain_at(s: Seq<char>, t: Seq<Token>, p: int) -> Result<
    (Seq<ExpressionModel>, Seq<BiOperator>, int),
    int,
>
    decreases t.len() - p, 1int,
{
    match kind_at(t, p) {
        Some(TokenKind::Operator(op)) => match value_at(s, t, p + 1) {
            Ok((v, q)) => if q <= p + 1 || q > t.len() {
                Err(p)
            } else {
                match chain_at(s, t, q) {
                    Ok((vs, os, r)) => Ok((seq![v] + vs, seq![op] + os, r)),
                    Err(e) => Err(e),
                }
            },
            Err(e) => Err(e),
        },
        _ => Ok((Seq::empty(), Seq::empty(), p)),
    }
}

/// An expression at `p`: an operand followed by any number of operators
/// and operands, nested by `climb`.
pub open spec fn expr_at(s: Seq<char>, t: Seq<Token>, p: int) -> Result<(ExpressionModel, int), int>
    decreases t.len() - p, 2int,
{
    match value_at(s, t, p) {
        Ok((first, q)) => if q <= p || q > t.len() {
            Err(p)
        } else {
            match chain_at(s, t, q) {
                Ok((rs, os, r)) => Ok((nest(first, rs, os), r)),
                Err(e) => Err(e),
            }
        },
        Err(e) => Err(e),
    }
}

/// Comma-separated arguments from `p` on, up to and including `)`.
pub open spec fn arg_list_at(
    s: Seq<char>,
    t: Seq<Token>,
    p: int,
) -> Result<(Seq<ExpressionModel>, int), int>
    decreases t.len() - p, 3int,
{
    match expr_at(s, t, p) {
        Ok((e, q)) => if q <= p || q > t.len() {
            Err(p)
        } else {
            match kind_at(t, q) {
                Some(TokenKind::Comma) => match arg_list_at(s, t, q + 1) {
                    Ok((es, r)) => Ok((seq![e] + es, r)),
                    Err(x) => Err(x),
                },
                Some(TokenKind::CloseParen) => Ok((seq![e], q + 1)),
                _ => Err(q),
            }
        },
        Err(x) => Err(x),
    }
}

/// The arguments of a call from `p` (just after its `(`) on, up to and
/// including `)`.
pub open spec fn args_at(
    s: Seq<char>,
    t: Seq<Token>,
    p: int,
) -> Result<(Seq<ExpressionModel>, int), int>
    decreases t.len() - p, 4int,
{
    if kind_at(t, p) == Some(TokenKind::CloseParen) {
        Ok((Seq::empty(), p + 1))
    } else {
        arg_list_at(s, t, p)
    }
}

/// A block `{ statement* }` at `p`.
pub open spec fn block_at(s: Seq<char>, t: Seq<Token>, p: int) -> Result<(StatementModel, int), int>
    decreases t.len() - p, 0int,
{
    if kind_at(t, p) == Some(TokenKind::OpenBrace) {
        match statements_at(s, t, p + 1) {
            Ok((body, q)) => Ok((StatementModel::Block(body), q)),
            Err(e) => Err(e),
        }
    } else {
        Err(p)
    }
}

/// A statement at `p`.
pub open spec fn statement_at(
    s: Seq<char>,
    t: Seq<Token>,
    p: int,
) -> Result<(StatementModel, int), int>
    decreases t.len() - p, 1int,
{
    match kind_at(t, p) {
        Some(TokenKind::Let) => {
            if kind_at(t, p + 1) == Some(TokenKind::Identifier) && kind_at(t, p + 2) == Some(
                TokenKind::Assign,
            ) {
                match expr_at(s, t, p + 3) {
                    Ok((e, q)) => if kind_at(t, q) == Some(TokenKind::Semicolon) {
                        Ok((StatementModel::Assign(text(s, t[p + 1]), e), q + 1))
                    } else {
                        Err(q)
                    },
                    Err(x) => Err(x),
                }
            } else if kind_at(t, p + 1) == Some(TokenKind::Identifier) {
                Err(p + 2)
            } else {
                Err(p + 1)
            }
        },
        Some(TokenKind::Identifier) => {
            if kind_at(t, p + 1) == Some(TokenKind::OpenParen) {
                match args_at(s, t, p + 2) {
                    Ok((args, q)) => if kind_at(t, q) == Some(TokenKind::Semicolon) {
                        Ok((StatementModel::Call(ExpressionModel::Call(text(s, t[p]), args)), q + 1))
                    } else {
                        Err(q)
                    },
                    Err(x) => Err(x),
                }
            } else {
                Err(p + 1)
            }
        },
        Some(TokenKind::If) => match expr_at(s, t, p + 1) {
            Ok((cond, q)) => if q <= p || q > t.len() {
                Err(p)
            } else {
                match block_at(s, t, q) {
                    Ok((body, r)) => if r <= q || r > t.len() {
                        Err(q)
                    } else if kind_at(t, r) == Some(TokenKind::Else) {
                        match block_at(s, t, r + 1) {
                            Ok((else_body, u)) => Ok(
                                (
                                    StatementModel::Conditional(
                                        cond,
                                        Box::new(body),
                                        Some(Box::new(else_body)),
                                    ),
                                    u,
                                ),
                            ),
                            Err(x) => Err(x),
                        }
                    } else {
                        Ok((StatementModel::Conditional(cond, Box::new(body), None), r))
                    },
                    Err(x) => Err(x),
                }
            },
            Err(x) => Err(x),
        },
        Some(TokenKind::While) => match expr_at(s, t, p + 1) {
            Ok((cond, q)) => if q <= p || q > t.len() {
                Err(p)
            } else {
                match block_at(s, t, q) {
                    Ok((body, r)) => Ok((StatementModel::Loop(cond, Box::new(body)), r)),
                    Err(x) => Err(x),
                }
            },
            Err(x) => Err(x),
        },
        Some(TokenKind::OpenBrace) => block_at(s, t, p),
        _ => Err(p),
    }
}

/// Statements from `p` on, up to and including the `}` that closes them.
pub open spec fn statements_at(
    s: Seq<char>,
    t: Seq<Token>,
    p: int,
) -> Result<(Seq<StatementModel>, int), int>
    decreases t.len() - p, 2int,
{
    if p < 0 || p >= t.len() {
        Err(p)
    } else if t[p].kind == TokenKind::CloseBrace {
        Ok((Seq::empty(), p + 1))
    } else {
        match statement_at(s, t, p) {
            Ok((st, q)) => if q <= p || q > t.len() {
                Err(p)
            } else {
                match statements_at(s, t, q) {
                    Ok((rest, r)) => Ok((seq![st] + rest, r)),
                    Err(x) => Err(x),
                }
            },
            Err(x) => Err(x),
        }
    }
}

/// The statements from `p` to the end of the input.
pub open spec fn program_at(s: Seq<char>, t: Seq<Token>, p: int) -> Result<Seq<StatementModel>, int>
    decreases t.len() - p,
{
    if p < 0 || p >= t.len() {
        Ok(Seq::empty())
    } else {
        match statement_at(s, t, p) {
            Ok((st, q)) => if q <= p || q > t.len() {
                Err(p)
            } else {
                match program_at(s, t, q) {
                    Ok(rest) => Ok(seq![st] + rest),
                    Err(x) => Err(x),
                }
            },
            Err(x) => Err(x),
        }
    }
}

/// Where the token at `p` starts; the end of the source past the last token.
pub open spec fn offset_of(s: Seq<char>, t: Seq<Token>, p: int) -> int {
    if 0 <= p < t.len() {
        t[p].start as int
    } else {
        s.len() as int
    }
}

/// The program that the source `s` holds, or the character position at which
/// it stops being one. A source without statements holds no program.
pub open spec fn program_of(s: Seq<char>) -> Result<Seq<StatementModel>, int> {
    match lex(s) {
        Err(i) => Err(i),
        Ok(t) => match program_at(s, t, 0) {
            Ok(stmts) => if stmts.len() == 0 {
                Err(0)
            } else {
                Ok(stmts)
            },
            Err(p) => Err(offset_of(s, t, p)),
        },
    }
}

/// A `let` whose expression is not followed by `;` is not a statement.
pub proof fn lemma_unterminated_let_rejected(s: Seq<char>, t: Seq<Token>, p: int)
    requires
        kind_at(t, p) == Some(TokenKind::Let),
        kind_at(t, p + 1) == Some(TokenKind::Identifier),
        kind_at(t, p + 2) == Some(TokenKind::Assign),
        expr_at(s, t, p + 3) matches Ok((_, q)) && kind_at(t, q) != Some(TokenKind::Semicolon),
    ensures
        statement_at(s, t, p) is Err,
{
}

/// A call statement whose `)` is not followed by `;` is not a statement.
pub proof fn lemma_unterminated_call_rejected(s: Seq<char>, t: Seq<Token>, p: int)
    requires
        kind_at(t, p) == Some(TokenKind::Identifier),
        kind_at(t, p + 1) == Some(TokenKind::OpenParen),
        args_at(s, t, p + 2) matches Ok((_, q)) && kind_at(t, q) != Some(TokenKind::Semicolon),
    ensures
        statement_at(s, t, p) is Err,
{
}

/// An operator with no operand after it ends no expression.
pub proof fn lemma_dangling_operator_rejected(s: Seq<char>, t: Seq<Token>, p: int)
    requires
        kind_at(t, p) matches Some(TokenKind::Operator(_)),
        value_at(s, t, p + 1) is Err,
    ensures
        chain_at(s, t, p) is Err,
{
}

/// A source is a program only if the statements from its first token on
/// are: a statement that fails fails the whole source.
pub proof fn lemma_failed_statement_fails_program(s: Seq<char>, t: Seq<Token>, p: int)
    requires
        0 <= p < t.len(),
        statement_at(s, t, p) is Err,
    ensures
        program_at(s, t, p) is Err,
{
}

/// The rank of the operator at the root of a tree, if the root is a
/// binary node.
pub open spec fn root_rank(e: ExpressionModel) -> Option<nat> {
    match e {
        ExpressionModel::Binary(_, op, _) => Some(rank(op)),
        _ => None,
    }
}

/// Outside brackets, every binary node binds no tighter than the binary
/// node at the root of its left operand, and strictly less tight than the
/// one at the root of its right operand: a higher rank binds tighter, and
/// equal ranks group to the left.
pub open spec fn ranked(e: ExpressionModel) -> bool
    decreases e,
{
    match e {
        ExpressionModel::Binary(l, op, r) => {
            &&& (root_rank(*l) matches Some(k) ==> k >= rank(op))
            &&& (root_rank(*r) matches Some(k) ==> k > rank(op))
            &&& ranked(*l)
            &&& ranked(*r)
        },
        _ => true,
    }
}

/// No operand is a binary node.
pub open spec fn operands_only(rs: Seq<ExpressionModel>) -> bool {
    forall|i: int| 0 <= i < rs.len() ==> root_rank(#[trigger] rs[i]) is None
}

proof fn lemma_climb_ranked(
    left: ExpressionModel,
    rs: Seq<ExpressionModel>,
    os: Seq<BiOperator>,
    min: nat,
)
    requires
        rs.len() == os.len(),
        ranked(left),
        operands_only(rs),
        os.len() > 0 && rank(os[0]) > min ==> (root_rank(left) matches Some(k) ==> k >= rank(
            os[0],
        )),
    ensures
        ({
            let (tree, rs_rest, os_rest) = climb(left, rs, os, min);
            &&& ranked(tree)
            &&& tree == left || (root_rank(tree) matches Some(k) && k > min)
            &&& rs_rest.len() == os_rest.len()
            &&& os_rest.len() <= os.len()
            &&& operands_only(rs_rest)
            &&& (os_rest.len() == 0 || rank(os_rest[0]) <= min)
        }),
    decreases os.len(),
{
    if os.len() == 0 || rs.len() == 0 || rank(os[0]) <= min {
    } else {
        let op = os[0];
        assert(operands_only(rs.drop_first())) by {
            assert forall|i: int| 0 <= i < rs.drop_first().len() implies root_rank(
                #[trigger] rs.drop_first()[i],
            ) is None by {
                assert(rs.drop_first()[i] == rs[i + 1]);
            }
        }
        assert(root_rank(rs[0]) is None);
        lemma_climb_ranked(rs[0], rs.drop_first(), os.drop_first(), rank(op));
        let (right, rs_rest, os_rest) = climb(rs[0], rs.drop_first(), os.drop_first(), rank(op));
        let joined = ExpressionModel::Binary(Box::new(left), op, Box::new(right));
        assert(ranked(joined));
        lemma_climb_ranked(joined, rs_rest, os_rest, min);
    }
}

proof fn lemma_value_is_operand(s: Seq<char>, t: Seq<Token>, p: int)
    ensures
        value_at(s, t, p) matches Ok((v, _)) ==> root_rank(v) is None,
{
}

proof fn lemma_chain_operands(s: Seq<char>, t: Seq<Token>, p: int)
    ensures
        chain_at(s, t, p) matches Ok((rs, os, _)) ==> rs.len() == os.len() && operands_only(rs),
    decreases t.len() - p,
{
    if let Some(TokenKind::Operator(op)) = kind_at(t, p) {
        lemma_value_is_operand(s, t, p + 1);
        if let Ok((v, q)) = value_at(s, t, p + 1) {
            if q > p + 1 && q <= t.len() {
                lemma_chain_operands(s, t, q);
                if let Ok((vs, os, r)) = chain_at(s, t, q) {
                    let all = seq![v] + vs;
                    assert forall|i: int| 0 <= i < all.len() implies root_rank(
                        #[trigger] all[i],
                    ) is None by {
                        if i > 0 {
                            assert(all[i] == vs[i - 1]);
                        }
                    }
                }
            }
        }
    }
}

/// Every expression that the grammar reads honours the ranks of its
/// operators (see `ranked`).
pub proof fn lemma_parsed_expression_ranked(s: Seq<char>, t: Seq<Token>, p: int)
    ensures
        expr_at(s, t, p) matches Ok((e, _)) ==> ranked(e),
{
    lemma_value_is_operand(s, t, p);
    if let Ok((first, q)) = value_at(s, t, p) {
        if q > p && q <= t.len() {
            lemma_chain_operands(s, t, q);
            if let Ok((rs, os, r)) = chain_at(s, t, q) {
                lemma_climb_ranked(first, rs, os, 0);
            }
        }
    }
}

/// The token that ends a statement.
pub open spec fn ends_statement(t: Seq<Token>, q: int) -> bool {
    kind_at(t, q - 1) == Some(TokenKind::Semicolon) || kind_at(t, q - 1) == Some(
        TokenKind::CloseBrace,
    )
}

proof fn lemma_block_end(s: Seq<char>, t: Seq<Token>, p: int)
    ensures
        block_at(s, t, p) matches Ok((_, q)) ==> kind_at(t, q - 1) == Some(TokenKind::CloseBrace),
    decreases t.len() - p, 0int,
{
    if kind_at(t, p) == Some(TokenKind::OpenBrace) {
        lemma_statements_end(s, t, p + 1);
    }
}

proof fn lemma_statement_end(s: Seq<char>, t: Seq<Token>, p: int)
    ensures
        statement_at(s, t, p) matches Ok((_, q)) ==> ends_statement(t, q),
    decreases t.len() - p, 1int,
{
    match kind_at(t, p) {
        Some(TokenKind::If) => {
            if let Ok((_, q)) = expr_at(s, t, p + 1) {
                if q > p && q <= t.len() {
                    lemma_block_end(s, t, q);
                    if let Ok((_, r)) = block_at(s, t, q) {
                        if r > q && r <= t.len() {
                            lemma_block_end(s, t, r + 1);
                        }
                    }
                }
            }
        },
        Some(TokenKind::While) => {
            if let Ok((_, q)) = expr_at(s, t, p + 1) {
                if q > p && q <= t.len() {
                    lemma_block_end(s, t, q);
                }
            }
        },
        Some(TokenKind::OpenBrace) => {
            lemma_block_end(s, t, p);
        },
        _ => {},
    }
}

proof fn lemma_statements_end(s: Seq<char>, t: Seq<Token>, p: int)
    ensures
        statements_at(s, t, p) matches Ok((_, q)) ==> kind_at(t, q - 1) == Some(
            TokenKind::CloseBrace,
        ),
    decreases t.len() - p, 2int,
{
    if 0 <= p < t.len() && t[p].kind != TokenKind::CloseBrace {
        if let Ok((_, q)) = statement_at(s, t, p) {
            if q > p && q <= t.len() {
                lemma_statements_end(s, t, q);
            }
        }
    }
}

proof fn lemma_program_end(s: Seq<char>, t: Seq<Token>, p: int)
    requires
        0 <= p < t.len(),
    ensures
        program_at(s, t, p) is Ok ==> ends_statement(t, t.len() as int),
    decreases t.len() - p,
{
    lemma_statement_end(s, t, p);
    if let Ok((_, q)) = statement_at(s, t, p) {
        if q > p && q < t.len() {
            lemma_program_end(s, t, q);
        }
    }
}

/// A source is a program only if its last token ends a statement: a source
/// whose last statement lacks its `;`, or that ends in an operator without
/// its right operand, does not compile.
pub proof fn lemma_program_ends_a_statement(s: Seq<char>)
    ensures
        program_of(s) is Ok ==> (lex(s) matches Ok(t) && t.len() > 0 && ends_statement(
            t,
            t.len() as int,
        )),
{
    if let Ok(t) = lex(s) {
        if t.len() > 0 {
            lemma_program_end(s, t, 0);
        }
    }
}

/// A `-` written right before a number literal, where an operand is due,
/// belongs to the literal: the operand is the number spelled by the `-`
/// and the literal's digits, which the host reads as the negated value;
/// it is never a subtraction.
pub proof fn lemma_negative_literal(s: Seq<char>, t: Seq<Token>, p: int)
    requires
        within(s, t),
        0 <= p,
        p + 1 < t.len(),
        t[p].kind == TokenKind::Operator(BiOperator::Subtract),
        t[p + 1].kind == TokenKind::Number,
        t[p + 1].start == t[p].end,
    ensures
        value_at(s, t, p) == Ok::<(ExpressionModel, int), int>(
            (ExpressionModel::Number(text(s, t[p]) + text(s, t[p + 1])), p + 2),
        ),
{
    assert(s.subrange(t[p].start as int, t[p + 1].end as int) =~= text(s, t[p]) + text(
        s,
        t[p + 1],
    ));
}

} // verus!
