use vstd::prelude::*;

use crate::bi_operator::BiOperator;
use crate::expression::{expression_model, Expression, ExpressionModel};
use crate::machine::{evaluations, executions, otherwise, transition, Configuration, Task};
use crate::statement::{statement_model, Statement, StatementModel};

verus! {

/// A task with its expressions and statements as models.
pub enum TaskModel {
    Evaluate(ExpressionModel),
    Combine(BiOperator),
    Call(Seq<char>, nat),
    Execute(StatementModel),
    Bind(Seq<char>),
    Discard,
    Branch(StatementModel, Option<StatementModel>),
    Repeat(ExpressionModel, StatementModel),
}

pub open spec fn task_model(t: Task) -> TaskModel {
    match t {
        Task::Evaluate(e) => TaskModel::Evaluate(expression_model(e)),
        Task::Combine(op) => TaskModel::Combine(op),
        Task::Call(name, args) => TaskModel::Call(name@, args@.len()),
        Task::Execute(s) => TaskModel::Execute(statement_model(s)),
        Task::Bind(name) => TaskModel::Bind(name@),
        Task::Discard => TaskModel::Discard,
        Task::Branch(body, other) => TaskModel::Branch(
            statement_model(body),
            match other {
                Some(o) => Some(statement_model(o)),
                None => None,
            },
        ),
        Task::Repeat(cond, body) => TaskModel::Repeat(expression_model(cond), statement_model(body)),
    }
}

pub open spec fn tasks_model(ts: Seq<Task>) -> Seq<TaskModel> {
    Seq::new(ts.len(), |i: int| task_model(ts[i]))
}

/// Two states of runs agree: the same tasks up to their models, the same
/// operands, the same owed answer and the same variables.
pub open spec fn agree(c1: Configuration, c2: Configuration) -> bool {
    &&& tasks_model(c1.tasks) == tasks_model(c2.tasks)
    &&& c1.values == c2.values
    &&& c1.awaiting == c2.awaiting
    &&& c1.env == c2.env
}

proof fn lemma_tasks_model_push(ts: Seq<Task>, t: Task)
    ensures
        tasks_model(ts.push(t)) == tasks_model(ts).push(task_model(t)),
{
    assert(tasks_model(ts.push(t)) =~= tasks_model(ts).push(task_model(t)));
}

proof fn lemma_tasks_model_concat(a: Seq<Task>, b: Seq<Task>)
    ensures
        tasks_model(a + b) == tasks_model(a) + tasks_model(b),
{
    assert(tasks_model(a + b) =~= tasks_model(a) + tasks_model(b));
}

proof fn lemma_evaluations_agree(a1: Seq<Expression>, a2: Seq<Expression>)
    requires
        a1.len() == a2.len(),
        forall|i: int| 0 <= i < a1.len() ==> expression_model(&a1[i]) == expression_model(&a2[i]),
    ensures
        tasks_model(evaluations(a1)) == tasks_model(evaluations(a2)),
    decreases a1.len(),
{
    if a1.len() > 0 {
        assert forall|i: int| 0 <= i < a1.drop_first().len() implies expression_model(
            &a1.drop_first()[i],
        ) == expression_model(&a2.drop_first()[i]) by {
            assert(a1.drop_first()[i] == a1[i + 1]);
            assert(a2.drop_first()[i] == a2[i + 1]);
        }
        lemma_evaluations_agree(a1.drop_first(), a2.drop_first());
        lemma_tasks_model_push(evaluations(a1.drop_first()), Task::Evaluate(&a1[0]));
        lemma_tasks_model_push(evaluations(a2.drop_first()), Task::Evaluate(&a2[0]));
    }
}

pub proof fn lemma_executions_agree(s1: Seq<Statement>, s2: Seq<Statement>)
    requires
        s1.len() == s2.len(),
        forall|i: int| 0 <= i < s1.len() ==> statement_model(&s1[i]) == statement_model(&s2[i]),
    ensures
        tasks_model(executions(s1)) == tasks_model(executions(s2)),
    decreases s1.len(),
{
    if s1.len() > 0 {
        assert forall|i: int| 0 <= i < s1.drop_first().len() implies statement_model(
            &s1.drop_first()[i],
        ) == statement_model(&s2.drop_first()[i]) by {
            assert(s1.drop_first()[i] == s1[i + 1]);
            assert(s2.drop_first()[i] == s2[i + 1]);
        }
        lemma_executions_agree(s1.drop_first(), s2.drop_first());
        lemma_tasks_model_push(executions(s1.drop_first()), Task::Execute(&s1[0]));
        lemma_tasks_model_push(executions(s2.drop_first()), Task::Execute(&s2[0]));
    }
}

proof fn lemma_decide_agree(c1: Configuration, c2: Configuration)
    requires
        agree(c1, c2),
        !c1.awaiting,
        c1.tasks.len() > 0,
        c1.tasks.last() is Branch || c1.tasks.last() is Repeat,
    ensures
        agree(transition(c1).0, transition(c2).0),
        transition(c1).1 == transition(c2).1,
{
    let n = c1.tasks.len() - 1;
    assert(tasks_model(c1.tasks)[n] == tasks_model(c2.tasks)[n]);
    let rest1 = c1.tasks.drop_last();
    let rest2 = c2.tasks.drop_last();
    assert(tasks_model(rest1) =~= tasks_model(c1.tasks).drop_last());
    assert(tasks_model(rest2) =~= tasks_model(c2.tasks).drop_last());
    match (c1.tasks.last(), c2.tasks.last()) {
        (Task::Branch(b1, o1), Task::Branch(b2, o2)) => {
            lemma_tasks_model_push(rest1, Task::Execute(b1));
            lemma_tasks_model_push(rest2, Task::Execute(b2));
            if let (Some(x1), Some(x2)) = (o1, o2) {
                lemma_tasks_model_push(rest1, Task::Execute(x1));
                lemma_tasks_model_push(rest2, Task::Execute(x2));
            }
        },
        (Task::Repeat(e1, b1), Task::Repeat(e2, b2)) => {
            let r1 = Task::Repeat(e1, b1);
            let r2 = Task::Repeat(e2, b2);
            lemma_tasks_model_push(rest1, r1);
            lemma_tasks_model_push(rest2, r2);
            lemma_tasks_model_push(rest1.push(r1), Task::Evaluate(e1));
            lemma_tasks_model_push(rest2.push(r2), Task::Evaluate(e2));
            lemma_tasks_model_push(rest1.push(r1).push(Task::Evaluate(e1)), Task::Execute(b1));
            lemma_tasks_model_push(rest2.push(r2).push(Task::Evaluate(e2)), Task::Execute(b2));
        },
        _ => {},
    }
}

/// Runs whose states agree take the same step: they make the same request
/// of the host, and their next states agree again. With the same answers
/// from the host (an answer only pushes its value), they agree to the end.
#[verifier::rlimit(50)]
pub proof fn lemma_agreeing_runs_step_alike(c1: Configuration, c2: Configuration)
    requires
        agree(c1, c2),
    ensures
        agree(transition(c1).0, transition(c2).0),
        transition(c1).1 == transition(c2).1,
{
    if c1.awaiting || c1.tasks.len() == 0 {
        assert(tasks_model(c1.tasks).len() == tasks_model(c2.tasks).len());
        return;
    }
    let n = c1.tasks.len() - 1;
    assert(tasks_model(c1.tasks).len() == tasks_model(c2.tasks).len());
    assert(tasks_model(c1.tasks)[n] == tasks_model(c2.tasks)[n]);
    let rest1 = c1.tasks.drop_last();
    let rest2 = c2.tasks.drop_last();
    assert(tasks_model(rest1) =~= tasks_model(c1.tasks).drop_last());
    assert(tasks_model(rest2) =~= tasks_model(c2.tasks).drop_last());
    match (c1.tasks.last(), c2.tasks.last()) {
        (Task::Evaluate(e1), Task::Evaluate(e2)) => match (e1, e2) {
            (Expression::BinaryExpression(l1, op1, r1), Expression::BinaryExpression(l2, op2, r2)) => {
                let k1 = rest1.push(Task::Combine(*op1));
                let k2 = rest2.push(Task::Combine(*op2));
                lemma_tasks_model_push(rest1, Task::Combine(*op1));
                lemma_tasks_model_push(rest2, Task::Combine(*op2));
                lemma_tasks_model_push(k1, Task::Evaluate(&**r1));
                lemma_tasks_model_push(k2, Task::Evaluate(&**r2));
                lemma_tasks_model_push(k1.push(Task::Evaluate(&**r1)), Task::Evaluate(&**l1));
                lemma_tasks_model_push(k2.push(Task::Evaluate(&**r2)), Task::Evaluate(&**l2));
            },
            (Expression::BracketExpression(i1), Expression::BracketExpression(i2)) => {
                lemma_tasks_model_push(rest1, Task::Evaluate(&**i1));
                lemma_tasks_model_push(rest2, Task::Evaluate(&**i2));
            },
            (Expression::Function(n1, a1), Expression::Function(n2, a2)) => {
                let m1 = expression_model(e1);
                let m2 = expression_model(e2);
                assert(m1 == m2);
                if let (ExpressionModel::Call(_, x1), ExpressionModel::Call(_, x2)) = (m1, m2) {
                    assert(x1.len() == a1@.len());
                    assert(x2.len() == a2@.len());
                    assert forall|i: int| 0 <= i < a1@.len() implies expression_model(&a1@[i])
                        == expression_model(&a2@[i]) by {
                        assert(x1[i] == expression_model(&a1@[i]));
                        assert(x2[i] == expression_model(&a2@[i]));
                    }
                }
                lemma_evaluations_agree(a1@, a2@);
                lemma_tasks_model_push(rest1, Task::Call(n1, a1));
                lemma_tasks_model_push(rest2, Task::Call(n2, a2));
                lemma_tasks_model_concat(rest1.push(Task::Call(n1, a1)), evaluations(a1@));
                lemma_tasks_model_concat(rest2.push(Task::Call(n2, a2)), evaluations(a2@));
            },
            _ => {},
        },
        (Task::Execute(s1), Task::Execute(s2)) => match (s1, s2) {
            (Statement::FunctionCall(x1), Statement::FunctionCall(x2)) => {
                lemma_tasks_model_push(rest1, Task::Discard);
                lemma_tasks_model_push(rest2, Task::Discard);
                lemma_tasks_model_push(rest1.push(Task::Discard), Task::Evaluate(x1));
                lemma_tasks_model_push(rest2.push(Task::Discard), Task::Evaluate(x2));
            },
            (Statement::Assignment(n1, x1), Statement::Assignment(n2, x2)) => {
                lemma_tasks_model_push(rest1, Task::Bind(n1));
                lemma_tasks_model_push(rest2, Task::Bind(n2));
                lemma_tasks_model_push(rest1.push(Task::Bind(n1)), Task::Evaluate(x1));
                lemma_tasks_model_push(rest2.push(Task::Bind(n2)), Task::Evaluate(x2));
            },
            (Statement::Conditional(x1, b1, o1), Statement::Conditional(x2, b2, o2)) => {
                let t1 = Task::Branch(&**b1, otherwise(o1));
                let t2 = Task::Branch(&**b2, otherwise(o2));
                assert(task_model(t1) == task_model(t2));
                lemma_tasks_model_push(rest1, t1);
                lemma_tasks_model_push(rest2, t2);
                lemma_tasks_model_push(rest1.push(t1), Task::Evaluate(x1));
                lemma_tasks_model_push(rest2.push(t2), Task::Evaluate(x2));
            },
            (Statement::Loop(x1, b1), Statement::Loop(x2, b2)) => {
                let t1 = Task::Repeat(x1, &**b1);
                let t2 = Task::Repeat(x2, &**b2);
                lemma_tasks_model_push(rest1, t1);
                lemma_tasks_model_push(rest2, t2);
                lemma_tasks_model_push(rest1.push(t1), Task::Evaluate(x1));
                lemma_tasks_model_push(rest2.push(t2), Task::Evaluate(x2));
            },
            (Statement::CodeBlock(b1), Statement::CodeBlock(b2)) => {
                let m1 = statement_model(s1);
                let m2 = statement_model(s2);
                assert(m1 == m2);
                if let (StatementModel::Block(x1), StatementModel::Block(x2)) = (m1, m2) {
                    assert(x1.len() == b1@.len());
                    assert(x2.len() == b2@.len());
                    assert forall|i: int| 0 <= i < b1@.len() implies statement_model(&b1@[i])
                        == statement_model(&b2@[i]) by {
                        assert(x1[i] == statement_model(&b1@[i]));
                        assert(x2[i] == statement_model(&b2@[i]));
                    }
                }
                lemma_executions_agree(b1@, b2@);
                lemma_tasks_model_concat(rest1, executions(b1@));
                lemma_tasks_model_concat(rest2, executions(b2@));
            },
            _ => {},
        },
        (Task::Branch(_, _), _) => {
            lemma_decide_agree(c1, c2);
        },
        (Task::Repeat(_, _), _) => {
            lemma_decide_agree(c1, c2);
        },
        _ => {},
    }
}

} // verus!
