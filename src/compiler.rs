use vstd::prelude::*;

use crate::agreement::{agree, lemma_executions_agree};
use crate::grammar::program_of;
use crate::lexer::{lemma_lex_within, tokenize};
use crate::machine::{executions, lemma_executions_fit, Configuration, Execution, Task};
use crate::parser::Input;
use crate::statement::{statement_model, statements_model, Statement, StatementModel};
use crate::value::Value;

verus! {

/// Where in the source a compilation error was found.
#[derive(Debug, Clone, Copy, PartialEq, Eq, Structural)]
pub enum ErrorLocation {
    LineCol { line: usize, column: usize },
    /// A character offset into the source.
    Position(usize),
}

/// Why a source text could not be compiled.
#[derive(Debug, PartialEq, Eq)]
pub enum CompilationError {
    Statement { pos: ErrorLocation, context: String },
    Expression { pos: ErrorLocation, context: String },
    Operator { pos: ErrorLocation, context: String },
    Value { pos: ErrorLocation, context: String },
    StartOfProgram { pos: ErrorLocation, context: String },
}

/// The character offset that a compilation error reports the source to
/// fail at, for the errors that the front end raises.
pub open spec fn failure_offset(e: CompilationError) -> Option<int> {
    match e {
        CompilationError::StartOfProgram { pos: ErrorLocation::Position(p), .. } => Some(p as int),
        _ => None,
    }
}

/// The grammar front end: turns source text into statements.
pub struct MeadorParser;

/// The compiler from source text to a program.
pub struct MeadorCompiler;

/// A compiled program: its statements, run in order.
#[derive(Debug)]
pub struct Program {
    statements: Vec<Statement>,
}

fn characters(code: &str) -> (r: Vec<char>)
    ensures
        r@ == code@,
{
    let mut out: Vec<char> = Vec::new();
    for c in iter: code.chars()
        invariant
            out@ == iter.seq().take(iter.index() as int),
            iter.seq() == code@,
    {
        out.push(c);
    }
    out
}

impl MeadorParser {
    /// The statements of `code`, or the character offset at which it stops
    /// being a program.
    pub fn parse(code: &str) -> (r: Result<Vec<Statement>, usize>)
        ensures
            match (r, program_of(code@)) {
                (Ok(ss), Ok(ms)) => statements_model(ss@) == ms,
                (Err(x), Err(y)) => x as int == y,
                _ => false,
            },
    {
        let chars = characters(code);
        let tokens = match tokenize(&chars) {
            Ok(tokens) => tokens,
            Err(i) => {
                return Err(i);
            },
        };
        let n = chars.len();
        proof {
            lemma_lex_within(code@, 0);
        }
        let input = Input { code, tokens: &tokens };
        match input.program(0) {
            Ok(statements) => {
                if statements.len() == 0 {
                    Err(0)
                } else {
                    Ok(statements)
                }
            },
            Err(p) => {
                if p < tokens.len() {
                    Err(tokens[p].start)
                } else {
                    Err(n)
                }
            },
        }
    }
}

impl MeadorCompiler {
    /// Compiles `code` into a program. Every source that is not a program
    /// of the language, and a source without statements, is refused with
    /// `StartOfProgram` and the character offset at which it fails.
    pub fn compile(code: &str) -> (r: Result<Program, CompilationError>)
        ensures
            match (r, program_of(code@)) {
                (Ok(p), Ok(ms)) => p.model() == ms,
                (Err(e), Err(off)) => failure_offset(e) == Some(off),
                _ => false,
            },
    {
        match MeadorParser::parse(code) {
            Ok(statements) => Ok(Program { statements }),
            Err(offset) => {
                let context = if offset == 0 && code.unicode_len() == 0 {
                    "No statements found in program".to_owned()
                } else {
                    "Failed to parse program".to_owned()
                };
                Err(
                    CompilationError::StartOfProgram {
                        pos: ErrorLocation::Position(offset),
                        context,
                    },
                )
            },
        }
    }
}

impl Program {
    /// The models of the program's statements.
    pub open spec fn model(&self) -> Seq<StatementModel> {
        statements_model(self.body())
    }

    /// The program's statements.
    pub closed spec fn body(&self) -> Seq<Statement> {
        self.statements@
    }

    /// A run of the program against the variables of a context: its
    /// statements are executed in order, the first on top of the stack.
    pub fn execute(&self) -> (r: Execution<'_>)
        ensures
            r.wf(),
            forall|env| #[trigger] r.configuration(env) == (Configuration {
                tasks: executions(self.body()),
                values: Seq::empty(),
                awaiting: false,
                env,
            }),
    {
        let mut tasks: Vec<Task<'_>> = Vec::new();
        let n = self.statements.len();
        let mut i = n;
        assert(executions(self.statements@.subrange(n as int, n as int)) =~= Seq::<Task>::empty());
        while i > 0
            invariant
                n == self.statements@.len(),
                i <= n,
                tasks@ == executions(self.statements@.subrange(i as int, n as int)),
            decreases i,
        {
            i = i - 1;
            tasks.push(Task::Execute(&self.statements[i]));
            proof {
                let sub = self.statements@.subrange(i as int, n as int);
                assert(sub.drop_first() =~= self.statements@.subrange(i + 1, n as int));
                assert(sub[0] == self.statements@[i as int]);
            }
        }
        assert(self.statements@.subrange(0, n as int) =~= self.statements@);
        proof {
            lemma_executions_fit(self.statements@);
        }
        Execution::of_tasks(tasks)
    }

    /// The program's statements, in order.
    pub fn statements(&self) -> (r: &Vec<Statement>)
        ensures
            r@ == self.body(),
    {
        &self.statements
    }
}

/// Compiling the same text twice gives programs with the same statements,
/// and runs of the two against the same variables start in agreeing
/// states; by `lemma_agreeing_runs_step_alike` they then make the same
/// requests and end with the same variables.
pub proof fn lemma_recompiled_runs_agree(
    code: Seq<char>,
    first: Program,
    second: Program,
    env: Map<Seq<char>, Value>,
)
    requires
        program_of(code) == Ok::<Seq<StatementModel>, int>(first.model()),
        program_of(code) == Ok::<Seq<StatementModel>, int>(second.model()),
    ensures
        first.model() == second.model(),
        agree(
            Configuration { tasks: executions(first.body()), values: Seq::empty(), awaiting: false, env },
            Configuration { tasks: executions(second.body()), values: Seq::empty(), awaiting: false, env },
        ),
{
    let s1 = first.body();
    let s2 = second.body();
    assert(statements_model(s1).len() == s1.len());
    assert(statements_model(s2).len() == s2.len());
    assert forall|i: int| 0 <= i < s1.len() implies statement_model(&s1[i]) == statement_model(&s2[i]) by {
        assert(statements_model(s1)[i] == statement_model(&s1[i]));
        assert(statements_model(s2)[i] == statement_model(&s2[i]));
    }
    lemma_executions_agree(s1, s2);
}

} // verus!
