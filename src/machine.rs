use vstd::prelude::*;

use crate::bi_operator::{application, Application, BiOperator};
use crate::expression::{Expression, Function};
use crate::runtime::{ExecutionContext, RuntimeError};
use crate::statement::Statement;
use crate::value::Value;

verus! {

/// A piece of work left to a running program. The tasks form a stack; the
/// one on top runs next.
#[derive(Debug, Clone, Copy)]
pub enum Task<'a> {
    /// Evaluate the expression and push its value.
    Evaluate(&'a Expression),
    /// Pop the right and then the left operand and apply the operator.
    Combine(BiOperator),
    /// Pop one value for each argument and call the named function.
    Call(&'a String, &'a Vec<Expression>),
    /// Execute the statement.
    Execute(&'a Statement),
    /// Pop a value and bind the name to it.
    Bind(&'a String),
    /// Pop a value and drop it.
    Discard,
    /// Pop a condition and execute the first statement if it is true, the
    /// second (if any) if it is false.
    Branch(&'a Statement, Option<&'a Statement>),
    /// Pop a condition; while it is true, execute the body and test the
    /// expression again.
    Repeat(&'a Expression, &'a Statement),
}

/// What a step asks of the host that runs the program.
#[derive(Debug)]
pub enum Request<'a> {
    /// Nothing: step again.
    Proceed,
    /// Read the number literal as an IEEE-754 double and answer with it.
    Literal(&'a String),
    /// Apply the operator to the two doubles given by their bits and answer
    /// with the result: a number for arithmetic, a boolean for a comparison.
    Arithmetic(BiOperator, u64, u64),
    /// Apply the built-in function to the double given by its bits and
    /// answer with the number it gives.
    Builtin(Function, u64),
    /// Write the text of each value, then one newline, to the output.
    Print(Vec<Value>),
    /// An answer is owed before the program can go on.
    Waiting,
    /// The program has ended.
    Finished,
    /// The program has stopped on an error.
    Failed(RuntimeError),
}

/// A runtime error with its names as character sequences.
pub enum Fault {
    UnknownVariable(Seq<char>),
    UnknownFunction(Seq<char>),
    InvalidArguments(Function),
    InvalidOperator(BiOperator, Value, Value),
    InvalidConditionType(Value),
    Message(Seq<char>),
}

pub open spec fn fault_of(e: RuntimeError) -> Fault {
    match e {
        RuntimeError::UnknownVariable(name) => Fault::UnknownVariable(name@),
        RuntimeError::UnknownFunction(name) => Fault::UnknownFunction(name@),
        RuntimeError::InvalidArguments(f) => Fault::InvalidArguments(f),
        RuntimeError::InvalidOperator(op, l, r) => Fault::InvalidOperator(op, l, r),
        RuntimeError::InvalidConditionType(v) => Fault::InvalidConditionType(v),
        RuntimeError::Message(m) => Fault::Message(m@),
    }
}

/// A request with its texts and values as sequences.
pub enum Move {
    Proceed,
    Literal(Seq<char>),
    Arithmetic(BiOperator, u64, u64),
    Builtin(Function, u64),
    Print(Seq<Value>),
    Waiting,
    Finished,
    Failed(Fault),
}

pub open spec fn move_of(r: &Request) -> Move {
    match r {
        Request::Proceed => Move::Proceed,
        Request::Literal(text) => Move::Literal(text@),
        Request::Arithmetic(op, a, b) => Move::Arithmetic(*op, *a, *b),
        Request::Builtin(f, x) => Move::Builtin(*f, *x),
        Request::Print(values) => Move::Print(values@),
        Request::Waiting => Move::Waiting,
        Request::Finished => Move::Finished,
        Request::Failed(e) => Move::Failed(fault_of(*e)),
    }
}

/// The state of a running program: its tasks, its operand stack, whether
/// an answer of the host is owed, and its variables.
pub struct Configuration<'a> {
    pub tasks: Seq<Task<'a>>,
    pub values: Seq<Value>,
    pub awaiting: bool,
    pub env: Map<Seq<char>, Value>,
}

/// The built-in function that a name denotes.
pub open spec fn builtin_named(name: Seq<char>) -> Option<Function> {
    if name == seq!['s', 'i', 'n'] {
        Some(Function::Sin)
    } else if name == seq!['c', 'o', 's'] {
        Some(Function::Cos)
    } else if name == seq!['t', 'a', 'n'] {
        Some(Function::Tan)
    } else if name == seq!['a', 's', 'i', 'n'] {
        Some(Function::Asin)
    } else if name == seq!['a', 'c', 'o', 's'] {
        Some(Function::Acos)
    } else if name == seq!['a', 't', 'a', 'n'] {
        Some(Function::Atan)
    } else if name == seq!['p', 'r', 'i', 'n', 't'] {
        Some(Function::Print)
    } else {
        None
    }
}

/// Tasks that evaluate `args` from left to right, the first on top.
pub open spec fn evaluations<'a>(args: Seq<Expression>) -> Seq<Task<'a>>
    decreases args.len(),
{
    if args.len() == 0 {
        Seq::empty()
    } else {
        evaluations(args.drop_first()).push(Task::Evaluate(&args[0]))
    }
}

/// Tasks that execute `stmts` in order, the first on top.
pub open spec fn executions<'a>(stmts: Seq<Statement>) -> Seq<Task<'a>>
    decreases stmts.len(),
{
    if stmts.len() == 0 {
        Seq::empty()
    } else {
        executions(stmts.drop_first()).push(Task::Execute(&stmts[0]))
    }
}

/// `c` with the given tasks and operands, and no answer owed.
pub open spec fn with<'a>(
    c: Configuration<'a>,
    tasks: Seq<Task<'a>>,
    values: Seq<Value>,
) -> Configuration<'a> {
    Configuration { tasks, values, awaiting: false, env: c.env }
}

/// `c` with the given tasks and operands, waiting for the host's answer.
pub open spec fn asking<'a>(
    c: Configuration<'a>,
    tasks: Seq<Task<'a>>,
    values: Seq<Value>,
) -> Configuration<'a> {
    Configuration { tasks, values, awaiting: true, env: c.env }
}

/// A stop on an error: nothing is left to do.
pub open spec fn failed<'a>(c: Configuration<'a>, f: Fault) -> (Configuration<'a>, Move) {
    (with(c, Seq::empty(), Seq::empty()), Move::Failed(f))
}

/// What the top task `task` does with the condition `v` that it popped,
/// `rest` and `vs` being the tasks and operands below.
pub open spec fn decide<'a>(
    c: Configuration<'a>,
    rest: Seq<Task<'a>>,
    vs: Seq<Value>,
    v: Value,
    task: Task<'a>,
) -> (Configuration<'a>, Move) {
    match (task, v) {
        (Task::Branch(body, _), Value::Boolean(true)) => (
            with(c, rest.push(Task::Execute(body)), vs),
            Move::Proceed,
        ),
        (Task::Branch(_, Some(other)), Value::Boolean(false)) => (
            with(c, rest.push(Task::Execute(other)), vs),
            Move::Proceed,
        ),
        (Task::Branch(_, None), Value::Boolean(false)) => (with(c, rest, vs), Move::Proceed),
        (Task::Repeat(cond, body), Value::Boolean(true)) => {
            let again = rest.push(Task::Repeat(cond, body)).push(Task::Evaluate(cond));
            (with(c, again.push(Task::Execute(body)), vs), Move::Proceed)
        },
        (Task::Repeat(_, _), Value::Boolean(false)) => (with(c, rest, vs), Move::Proceed),
        _ => failed(c, Fault::InvalidConditionType(v)),
    }
}

/// The branch that a conditional's `false` takes, if any.
pub open spec fn otherwise(else_body: &Option<Box<Statement>>) -> Option<&Statement> {
    match else_body {
        Some(b) => Some(&**b),
        None => None,
    }
}

/// One step of a running program.
pub open spec fn transition<'a>(c: Configuration<'a>) -> (Configuration<'a>, Move) {
    if c.awaiting {
        (c, Move::Waiting)
    } else if c.tasks.len() == 0 {
        (c, Move::Finished)
    } else {
        let rest = c.tasks.drop_last();
        let vs = c.values;
        let n = vs.len();
        match c.tasks.last() {
            Task::Evaluate(e) => match e {
                Expression::Number(text) => (asking(c, rest, vs), Move::Literal(text@)),
                Expression::Boolean(b) => (
                    with(c, rest, vs.push(Value::Boolean(*b))),
                    Move::Proceed,
                ),
                Expression::BinaryExpression(l, op, r) => {
                    let operands = rest.push(Task::Combine(*op)).push(Task::Evaluate(&**r));
                    (with(c, operands.push(Task::Evaluate(&**l)), vs), Move::Proceed)
                },
                Expression::BracketExpression(inner) => (
                    with(c, rest.push(Task::Evaluate(&**inner)), vs),
                    Move::Proceed,
                ),
                Expression::Function(name, args) => (
                    with(c, rest.push(Task::Call(name, args)) + evaluations(args@), vs),
                    Move::Proceed,
                ),
                Expression::Variable(name) => if c.env.contains_key(name@) {
                    (with(c, rest, vs.push(c.env[name@])), Move::Proceed)
                } else {
                    failed(c, Fault::UnknownVariable(name@))
                },
            },
            Task::Combine(op) => {
                let below = vs.subrange(0, n - 2);
                match application(op, vs[n - 2], vs[n - 1]) {
                    Ok(Application::Computed(v)) => (with(c, rest, below.push(v)), Move::Proceed),
                    Ok(Application::Numeric(op, a, b)) => (
                        asking(c, rest, below),
                        Move::Arithmetic(op, a, b),
                    ),
                    Err(e) => failed(c, fault_of(e)),
                }
            },
            Task::Call(name, callee_args) => {
                let k = callee_args@.len();
                let args = vs.subrange(n - k, n as int);
                let below = vs.subrange(0, n - k);
                match builtin_named(name@) {
                    None => failed(c, Fault::UnknownFunction(name@)),
                    Some(Function::Print) => (
                        with(c, rest, below.push(Value::Void)),
                        Move::Print(args),
                    ),
                    Some(f) => if k == 1 && args[0] is Numerical {
                        (asking(c, rest, below), Move::Builtin(f, args[0]->Numerical_0))
                    } else {
                        failed(c, Fault::InvalidArguments(f))
                    },
                }
            },
            Task::Execute(s) => match s {
                Statement::FunctionCall(e) => (
                    with(c, rest.push(Task::Discard).push(Task::Evaluate(e)), vs),
                    Move::Proceed,
                ),
                Statement::Assignment(name, e) => (
                    with(c, rest.push(Task::Bind(name)).push(Task::Evaluate(e)), vs),
                    Move::Proceed,
                ),
                Statement::Conditional(cond, body, else_body) => {
                    let branch = Task::Branch(&**body, otherwise(else_body));
                    (with(c, rest.push(branch).push(Task::Evaluate(cond)), vs), Move::Proceed)
                },
                Statement::Loop(cond, body) => {
                    let repeat = Task::Repeat(cond, &**body);
                    (with(c, rest.push(repeat).push(Task::Evaluate(cond)), vs), Move::Proceed)
                },
                Statement::CodeBlock(stmts) => (
                    with(c, rest + executions(stmts@), vs),
                    Move::Proceed,
                ),
            },
            Task::Bind(name) => {
                let env = c.env.insert(name@, vs.last());
                (
                    Configuration { tasks: rest, values: vs.drop_last(), awaiting: false, env },
                    Move::Proceed,
                )
            },
            Task::Discard => (with(c, rest, vs.drop_last()), Move::Proceed),
            Task::Branch(_, _) => decide(c, rest, vs.drop_last(), vs.last(), c.tasks.last()),
            Task::Repeat(_, _) => decide(c, rest, vs.drop_last(), vs.last(), c.tasks.last()),
        }
    }
}

/// The operands that a task pops.
pub open spec fn needs(t: Task) -> int {
    match t {
        Task::Combine(_) => 2,
        Task::Call(_, args) => args@.len() as int,
        Task::Bind(_) | Task::Discard | Task::Branch(_, _) | Task::Repeat(_, _) => 1,
        _ => 0,
    }
}

/// How a task, run to its end, changes the height of the operand stack.
pub open spec fn yields(t: Task) -> int {
    match t {
        Task::Evaluate(_) => 1,
        Task::Combine(_) => -1,
        Task::Call(_, args) => 1 - args@.len(),
        Task::Execute(_) => 0,
        _ => -1,
    }
}

/// Each task, when it comes to the top, finds the operands it pops, given
/// an operand stack of height `h` now.
pub open spec fn fits(ts: Seq<Task>, h: int) -> bool
    decreases ts.len(),
{
    ts.len() == 0 || (needs(ts.last()) <= h && fits(ts.drop_last(), h + yields(ts.last())))
}

/// The operand stack of `c` holds what its tasks pop.
pub open spec fn sound(c: Configuration) -> bool {
    fits(c.tasks, c.values.len() + if c.awaiting {
        1int
    } else {
        0int
    })
}

proof fn lemma_fits_push(ts: Seq<Task>, t: Task, h: int)
    ensures
        fits(ts.push(t), h) == (needs(t) <= h && fits(ts, h + yields(t))),
{
    assert(ts.push(t).drop_last() =~= ts);
}

proof fn lemma_fits_evaluations<'a>(base: Seq<Task<'a>>, args: Seq<Expression>, h: int)
    requires
        h >= 0,
    ensures
        fits(base + evaluations::<'a>(args), h) == fits(base, h + args.len()),
    decreases args.len(),
{
    if args.len() == 0 {
        assert(base + evaluations::<'a>(args) =~= base);
    } else {
        let tail = evaluations::<'a>(args.drop_first());
        assert(base + evaluations::<'a>(args) =~= (base + tail).push(Task::Evaluate(&args[0])));
        lemma_fits_push(base + tail, Task::Evaluate(&args[0]), h);
        lemma_fits_evaluations(base, args.drop_first(), h + 1);
    }
}

proof fn lemma_fits_executions<'a>(base: Seq<Task<'a>>, stmts: Seq<Statement>, h: int)
    requires
        h >= 0,
    ensures
        fits(base + executions::<'a>(stmts), h) == fits(base, h),
    decreases stmts.len(),
{
    if stmts.len() == 0 {
        assert(base + executions::<'a>(stmts) =~= base);
    } else {
        let tail = executions::<'a>(stmts.drop_first());
        assert(base + executions::<'a>(stmts) =~= (base + tail).push(Task::Execute(&stmts[0])));
        lemma_fits_push(base + tail, Task::Execute(&stmts[0]), h);
        lemma_fits_executions(base, stmts.drop_first(), h);
    }
}

/// A step keeps the operand stack sound.
pub proof fn lemma_transition_sound(c: Configuration)
    requires
        sound(c),
    ensures
        sound(transition(c).0),
{
    if !c.awaiting && c.tasks.len() > 0 {
        let rest = c.tasks.drop_last();
        let h = c.values.len() as int;
        let top = c.tasks.last();
        lemma_fits_push(rest, top, h);
        assert(c.tasks == rest.push(top));
        match top {
            Task::Evaluate(e) => match e {
                Expression::BinaryExpression(l, op, r) => {
                    lemma_fits_push(rest.push(Task::Combine(*op)).push(Task::Evaluate(&**r)), Task::Evaluate(&**l), h);
                    lemma_fits_push(rest.push(Task::Combine(*op)), Task::Evaluate(&**r), h + 1);
                    lemma_fits_push(rest, Task::Combine(*op), h + 2);
                },
                Expression::BracketExpression(inner) => {
                    lemma_fits_push(rest, Task::Evaluate(&**inner), h);
                },
                Expression::Function(name, args) => {
                    lemma_fits_evaluations(rest.push(Task::Call(name, args)), args@, h);
                    lemma_fits_push(rest, Task::Call(name, args), h + args@.len());
                },
                _ => {},
            },
            Task::Execute(s) => match s {
                Statement::FunctionCall(e) => {
                    lemma_fits_push(rest.push(Task::Discard), Task::Evaluate(e), h);
                    lemma_fits_push(rest, Task::Discard, h + 1);
                },
                Statement::Assignment(name, e) => {
                    lemma_fits_push(rest.push(Task::Bind(name)), Task::Evaluate(e), h);
                    lemma_fits_push(rest, Task::Bind(name), h + 1);
                },
                Statement::Conditional(cond, body, else_body) => {
                    let b = Task::Branch(&**body, otherwise(else_body));
                    lemma_fits_push(rest.push(b), Task::Evaluate(cond), h);
                    lemma_fits_push(rest, b, h + 1);
                },
                Statement::Loop(cond, body) => {
                    let t = Task::Repeat(cond, &**body);
                    lemma_fits_push(rest.push(t), Task::Evaluate(cond), h);
                    lemma_fits_push(rest, t, h + 1);
                },
                Statement::CodeBlock(stmts) => {
                    lemma_fits_executions(rest, stmts@, h);
                },
            },
            Task::Branch(body, other) => {
                lemma_fits_push(rest, Task::Execute(body), h - 1);
                if let Some(o) = other {
                    lemma_fits_push(rest, Task::Execute(o), h - 1);
                }
            },
            Task::Repeat(cond, body) => {
                let t = Task::Repeat(cond, body);
                lemma_fits_push(rest.push(t).push(Task::Evaluate(cond)), Task::Execute(body), h - 1);
                lemma_fits_push(rest.push(t), Task::Evaluate(cond), h - 1);
                lemma_fits_push(rest, t, h);
            },
            _ => {},
        }
    }
}

/// Whether `name` is spelled `word`.
fn spelled(name: &String, word: Vec<char>) -> (r: bool)
    ensures
        r == (name@ == word@),
{
    let text = name.as_str();
    let n = text.unicode_len();
    if n != word.len() {
        return false;
    }
    let mut i: usize = 0;
    while i < n
        invariant
            n == text@.len(),
            n == word@.len(),
            text@ == name@,
            i <= n,
            forall|j: int| 0 <= j < i ==> text@[j] == word@[j],
        decreases n - i,
    {
        if text.get_char(i) != word[i] {
            return false;
        }
        i = i + 1;
    }
    assert(name@ =~= word@);
    true
}

/// The built-in function called `name`, if there is one.
fn builtin(name: &String) -> (r: Option<Function>)
    ensures
        r == builtin_named(name@),
{
    if spelled(name, vec!['s', 'i', 'n']) {
        Some(Function::Sin)
    } else if spelled(name, vec!['c', 'o', 's']) {
        Some(Function::Cos)
    } else if spelled(name, vec!['t', 'a', 'n']) {
        Some(Function::Tan)
    } else if spelled(name, vec!['a', 's', 'i', 'n']) {
        Some(Function::Asin)
    } else if spelled(name, vec!['a', 'c', 'o', 's']) {
        Some(Function::Acos)
    } else if spelled(name, vec!['a', 't', 'a', 'n']) {
        Some(Function::Atan)
    } else if spelled(name, vec!['p', 'r', 'i', 'n', 't']) {
        Some(Function::Print)
    } else {
        None
    }
}

/// A program, a statement or an expression being run step by step. Each
/// step either does its work or hands the host a request: a number literal
/// to read, an operation on two numbers or a built-in function to compute
/// (the host answers with `answer`), or values to print.
pub struct Execution<'a> {
    tasks: Vec<Task<'a>>,
    values: Vec<Value>,
    awaiting: bool,
}

impl<'a> Execution<'a> {
    /// The tasks left, the one on top last.
    pub closed spec fn pending(&self) -> Seq<Task<'a>> {
        self.tasks@
    }

    /// Whether an answer of the host is owed.
    pub closed spec fn owed(&self) -> bool {
        self.awaiting
    }

    /// The state of the run, with the variables `env`.
    pub open spec fn configuration(&self, env: Map<Seq<char>, Value>) -> Configuration<'a> {
        Configuration { tasks: self.pending(), values: self.operands(), awaiting: self.owed(), env }
    }

    pub closed spec fn wf(&self) -> bool {
        sound(self.configuration(Map::empty()))
    }

    /// The operand stack, its top last.
    pub closed spec fn operands(&self) -> Seq<Value> {
        self.values@
    }

    /// A run of the given tasks, with an empty operand stack.
    pub(crate) fn of_tasks(tasks: Vec<Task<'a>>) -> (r: Self)
        requires
            fits(tasks@, 0),
        ensures
            r.wf(),
            forall|env| #[trigger] r.configuration(env) == (Configuration { tasks: tasks@, values: Seq::empty(), awaiting: false, env }),
    {
        let r = Execution { tasks, values: Vec::new(), awaiting: false };
        assert(r.values@ =~= Seq::<Value>::empty());
        r
    }

    /// The value on top of the operand stack: the value of an expression
    /// whose evaluation has finished.
    pub fn result(&self) -> (r: Option<Value>)
        ensures
            self.operands().len() == 0 ==> r is None,
            self.operands().len() > 0 ==> r == Some(self.operands().last()),
    {
        if self.values.len() == 0 {
            None
        } else {
            Some(self.values[self.values.len() - 1])
        }
    }

    /// Hands the run the host's answer to its last request. An answer that
    /// no request asked for is dropped.
    pub fn answer(&mut self, value: Value)
        requires
            old(self).wf(),
        ensures
            final(self).wf(),
            forall|env| #[trigger] final(self).configuration(env) == (if old(self).configuration(env).awaiting {
                Configuration {
                    tasks: old(self).configuration(env).tasks,
                    values: old(self).configuration(env).values.push(value),
                    awaiting: false,
                    env,
                }
            } else {
                old(self).configuration(env)
            }),
    {
        if self.awaiting {
            self.values.push(value);
            self.awaiting = false;
        }
    }

    fn fail(&mut self, e: RuntimeError) -> (r: Request<'a>)
        ensures
            final(self).tasks@ == Seq::<Task<'a>>::empty(),
            final(self).values@ == Seq::<Value>::empty(),
            final(self).awaiting == false,
            move_of(&r) == Move::Failed(fault_of(e)),
    {
        self.tasks = Vec::new();
        self.values = Vec::new();
        self.awaiting = false;
        Request::Failed(e)
    }

    fn push_evaluations(&mut self, args: &'a Vec<Expression>)
        ensures
            final(self).tasks@ == old(self).tasks@ + evaluations::<'a>(args@),
            final(self).values@ == old(self).values@,
            final(self).awaiting == old(self).awaiting,
    {
        let ghost base = self.tasks@;
        let n = args.len();
        let mut i = n;
        assert(base + evaluations::<'a>(args@.subrange(n as int, n as int)) =~= base);
        while i > 0
            invariant
                n == args@.len(),
                i <= n,
                self.tasks@ == base + evaluations::<'a>(args@.subrange(i as int, n as int)),
                self.values@ == old(self).values@,
                self.awaiting == old(self).awaiting,
            decreases i,
        {
            i = i - 1;
            let ghost before = self.tasks@;
            self.tasks.push(Task::Evaluate(&args[i]));
            proof {
                let sub = args@.subrange(i as int, n as int);
                assert(sub.drop_first() =~= args@.subrange(i + 1, n as int));
                assert(sub[0] == args@[i as int]);
                assert(self.tasks@ =~= base + evaluations::<'a>(sub));
            }
        }
        assert(args@.subrange(0, n as int) =~= args@);
    }

    fn push_executions(&mut self, stmts: &'a Vec<Statement>)
        ensures
            final(self).tasks@ == old(self).tasks@ + executions::<'a>(stmts@),
            final(self).values@ == old(self).values@,
            final(self).awaiting == old(self).awaiting,
    {
        let ghost base = self.tasks@;
        let n = stmts.len();
        let mut i = n;
        assert(base + executions::<'a>(stmts@.subrange(n as int, n as int)) =~= base);
        while i > 0
            invariant
                n == stmts@.len(),
                i <= n,
                self.tasks@ == base + executions::<'a>(stmts@.subrange(i as int, n as int)),
                self.values@ == old(self).values@,
                self.awaiting == old(self).awaiting,
            decreases i,
        {
            i = i - 1;
            self.tasks.push(Task::Execute(&stmts[i]));
            proof {
                let sub = stmts@.subrange(i as int, n as int);
                assert(sub.drop_first() =~= stmts@.subrange(i + 1, n as int));
                assert(sub[0] == stmts@[i as int]);
                assert(self.tasks@ =~= base + executions::<'a>(sub));
            }
        }
        assert(stmts@.subrange(0, n as int) =~= stmts@);
    }
}

impl<'a> Execution<'a> {
    /// Runs the task on top of the stack, or says what the host owes or
    /// that the run is over.
    #[verifier::rlimit(50)]
    pub fn step(&mut self, context: &mut ExecutionContext) -> (r: Request<'a>)
        requires
            old(self).wf(),
            old(context).wf(),
        ensures
            final(self).wf(),
            final(context).wf(),
            transition(old(self).configuration(old(context).env())) == (
                final(self).configuration(final(context).env()),
                move_of(&r),
            ),
    {
        if self.awaiting {
            return Request::Waiting;
        }
        if self.tasks.len() == 0 {
            return Request::Finished;
        }
        proof {
            lemma_transition_sound(self.configuration(context.env()));
            lemma_transition_sound(self.configuration(Map::empty()));
        }
        let ghost c = self.configuration(context.env());
        let task = self.tasks.pop().unwrap();
        assert(self.tasks@ == c.tasks.drop_last());
        match task {
            Task::Evaluate(e) => match e {
                Expression::Number(text) => {
                    self.awaiting = true;
                    Request::Literal(text)
                },
                Expression::Boolean(b) => {
                    self.values.push(Value::Boolean(*b));
                    Request::Proceed
                },
                Expression::BinaryExpression(l, op, r) => {
                    self.tasks.push(Task::Combine(*op));
                    self.tasks.push(Task::Evaluate(&**r));
                    self.tasks.push(Task::Evaluate(&**l));
                    Request::Proceed
                },
                Expression::BracketExpression(inner) => {
                    self.tasks.push(Task::Evaluate(&**inner));
                    Request::Proceed
                },
                Expression::Function(name, args) => {
                    self.tasks.push(Task::Call(name, args));
                    self.push_evaluations(args);
                    Request::Proceed
                },
                Expression::Variable(name) => match context.get_variable(name) {
                    Some(v) => {
                        self.values.push(*v);
                        Request::Proceed
                    },
                    None => self.fail(RuntimeError::UnknownVariable(name.clone())),
                },
            },
            Task::Combine(op) => {
                let right = self.values.pop().unwrap();
                let left = self.values.pop().unwrap();
                assert(self.values@ =~= c.values.subrange(0, c.values.len() - 2));
                match op.apply(left, right) {
                    Ok(Application::Computed(v)) => {
                        self.values.push(v);
                        Request::Proceed
                    },
                    Ok(Application::Numeric(o, a, b)) => {
                        self.awaiting = true;
                        Request::Arithmetic(o, a, b)
                    },
                    Err(e) => self.fail(e),
                }
            },
            Task::Call(name, args) => {
                let at = self.values.len() - args.len();
                let popped = self.values.split_off(at);
                match builtin(name) {
                    None => self.fail(RuntimeError::UnknownFunction(name.clone())),
                    Some(Function::Print) => {
                        self.values.push(Value::Void);
                        Request::Print(popped)
                    },
                    Some(f) => {
                        if popped.len() == 1 {
                            match popped[0] {
                                Value::Numerical(x) => {
                                    self.awaiting = true;
                                    Request::Builtin(f, x)
                                },
                                _ => self.fail(RuntimeError::InvalidArguments(f)),
                            }
                        } else {
                            self.fail(RuntimeError::InvalidArguments(f))
                        }
                    },
                }
            },
            Task::Execute(s) => match s {
                Statement::FunctionCall(e) => {
                    self.tasks.push(Task::Discard);
                    self.tasks.push(Task::Evaluate(e));
                    Request::Proceed
                },
                Statement::Assignment(name, e) => {
                    self.tasks.push(Task::Bind(name));
                    self.tasks.push(Task::Evaluate(e));
                    Request::Proceed
                },
                Statement::Conditional(cond, body, else_body) => {
                    let other = match else_body {
                        Some(b) => Some(&**b),
                        None => None,
                    };
                    self.tasks.push(Task::Branch(&**body, other));
                    self.tasks.push(Task::Evaluate(cond));
                    Request::Proceed
                },
                Statement::Loop(cond, body) => {
                    self.tasks.push(Task::Repeat(cond, &**body));
                    self.tasks.push(Task::Evaluate(cond));
                    Request::Proceed
                },
                Statement::CodeBlock(stmts) => {
                    self.push_executions(stmts);
                    Request::Proceed
                },
            },
            Task::Bind(name) => {
                let v = self.values.pop().unwrap();
                context.set_variable(name.clone(), v);
                Request::Proceed
            },
            Task::Discard => {
                self.values.pop();
                Request::Proceed
            },
            Task::Branch(body, other) => {
                let v = self.values.pop().unwrap();
                match v {
                    Value::Boolean(true) => {
                        self.tasks.push(Task::Execute(body));
                        Request::Proceed
                    },
                    Value::Boolean(false) => {
                        if let Some(o) = other {
                            self.tasks.push(Task::Execute(o));
                        }
                        Request::Proceed
                    },
                    _ => self.fail(RuntimeError::InvalidConditionType(v)),
                }
            },
            Task::Repeat(cond, body) => {
                let v = self.values.pop().unwrap();
                match v {
                    Value::Boolean(true) => {
                        self.tasks.push(Task::Repeat(cond, body));
                        self.tasks.push(Task::Evaluate(cond));
                        self.tasks.push(Task::Execute(body));
                        Request::Proceed
                    },
                    Value::Boolean(false) => Request::Proceed,
                    _ => self.fail(RuntimeError::InvalidConditionType(v)),
                }
            },
        }
    }
}

/// The tasks of a fresh run of `stmts` fit an empty operand stack.
pub proof fn lemma_executions_fit<'a>(stmts: Seq<Statement>)
    ensures
        fits(executions::<'a>(stmts), 0),
{
    lemma_fits_executions(Seq::<Task<'a>>::empty(), stmts, 0);
    assert(Seq::<Task<'a>>::empty() + executions::<'a>(stmts) =~= executions::<'a>(stmts));
}

impl Statement {
    /// A run that executes this statement.
    pub fn execute(&self) -> (r: Execution<'_>)
        ensures
            r.wf(),
            forall|env| #[trigger] r.configuration(env) == (Configuration {
                tasks: seq![Task::Execute(self)],
                values: Seq::empty(),
                awaiting: false,
                env,
            }),
    {
        let tasks = vec![Task::Execute(self)];
        proof {
            lemma_fits_push(Seq::empty(), Task::Execute(self), 0);
            assert(tasks@.drop_last() =~= Seq::<Task>::empty());
            assert(tasks@ =~= seq![Task::Execute(self)]);
        }
        Execution::of_tasks(tasks)
    }
}

impl Expression {
    /// A run that evaluates this expression; its value is the run's
    /// `result` once it has finished.
    pub fn evaluate(&self) -> (r: Execution<'_>)
        ensures
            r.wf(),
            forall|env| #[trigger] r.configuration(env) == (Configuration {
                tasks: seq![Task::Evaluate(self)],
                values: Seq::empty(),
                awaiting: false,
                env,
            }),
    {
        let tasks = vec![Task::Evaluate(self)];
        proof {
            lemma_fits_push(Seq::empty(), Task::Evaluate(self), 0);
            assert(tasks@.drop_last() =~= Seq::<Task>::empty());
            assert(tasks@ =~= seq![Task::Evaluate(self)]);
        }
        Execution::of_tasks(tasks)
    }
}

/// A loop tests its condition before its first iteration: executing it
/// changes no variable and no operand, and queues the test of the condition
/// above the loop itself.
pub proof fn lemma_loop_tests_condition_first<'a>(c: Configuration<'a>)
    requires
        !c.awaiting,
        c.tasks.len() > 0,
        c.tasks.last() matches Task::Execute(s) && s is Loop,
    ensures
        match c.tasks.last() {
            Task::Execute(Statement::Loop(cond, body)) => {
                &&& transition(c).0.tasks == c.tasks.drop_last().push(Task::Repeat(cond, &**body)).push(
                    Task::Evaluate(cond),
                )
                &&& transition(c).0.values == c.values
                &&& transition(c).0.env == c.env
                &&& transition(c).1 == Move::Proceed
            },
            _ => false,
        },
{
}

/// After its test, a loop either ends (on false), or runs its body once and
/// then tests its condition again (on true); any other value stops the run.
pub proof fn lemma_loop_iterates<'a>(c: Configuration<'a>)
    requires
        !c.awaiting,
        c.tasks.len() > 0,
        c.tasks.last() is Repeat,
        c.values.len() > 0,
    ensures
        match (c.tasks.last(), c.values.last()) {
            (Task::Repeat(cond, body), Value::Boolean(true)) => transition(c).0 == with(
                c,
                c.tasks.drop_last().push(Task::Repeat(cond, body)).push(Task::Evaluate(cond)).push(
                    Task::Execute(body),
                ),
                c.values.drop_last(),
            ),
            (Task::Repeat(_, _), Value::Boolean(false)) => transition(c).0 == with(
                c,
                c.tasks.drop_last(),
                c.values.drop_last(),
            ),
            (_, v) => transition(c).1 == Move::Failed(Fault::InvalidConditionType(v)),
        },
{
}

/// A block opens no scope of its own: entering it changes no variable and
/// queues its statements, in order, on the same run.
pub proof fn lemma_block_shares_variables<'a>(c: Configuration<'a>)
    requires
        !c.awaiting,
        c.tasks.len() > 0,
        c.tasks.last() matches Task::Execute(s) && s is CodeBlock,
    ensures
        match c.tasks.last() {
            Task::Execute(Statement::CodeBlock(stmts)) => {
                &&& transition(c).0.tasks == c.tasks.drop_last() + executions::<'a>(stmts@)
                &&& transition(c).0.env == c.env
                &&& transition(c).0.values == c.values
            },
            _ => false,
        },
{
}

/// An assignment, however deep in blocks it stands, rebinds its name in the
/// one mapping of the run, over any earlier binding of that name.
pub proof fn lemma_assignment_rebinds<'a>(c: Configuration<'a>)
    requires
        !c.awaiting,
        c.tasks.len() > 0,
        c.tasks.last() is Bind,
        c.values.len() > 0,
    ensures
        match c.tasks.last() {
            Task::Bind(name) => transition(c).0.env == c.env.insert(name@, c.values.last()),
            _ => false,
        },
{
}

} // verus!
