use meadorc::bi_operator::BiOperator;
use meadorc::compiler::{CompilationError, MeadorCompiler, Program};
use meadorc::expression::Function;
use meadorc::machine::{Execution, Request};
use meadorc::runtime::{ExecutionContext, RuntimeError};
use meadorc::value::Value;

use anyhow::Result;

fn number(x: f64) -> Value {
    Value::Numerical(x.to_bits())
}

fn arithmetic(op: BiOperator, a: f64, b: f64) -> Value {
    match op {
        BiOperator::Add => number(a + b),
        BiOperator::Subtract => number(a - b),
        BiOperator::Multiply => number(a * b),
        BiOperator::Divide => number(a / b),
        BiOperator::Power => number(a.powf(b)),
        BiOperator::LessThan => Value::Boolean(a < b),
        BiOperator::LessThanOrEqual => Value::Boolean(a <= b),
        BiOperator::GreaterThan => Value::Boolean(a > b),
        BiOperator::GreaterThanOrEqual => Value::Boolean(a >= b),
        other => panic!("no numeric operation is requested for {:?}", other),
    }
}

fn trigonometry(f: Function, x: f64) -> f64 {
    match f {
        Function::Sin => x.sin(),
        Function::Cos => x.cos(),
        Function::Tan => x.tan(),
        Function::Asin => x.asin(),
        Function::Acos => x.acos(),
        Function::Atan => x.atan(),
        Function::Print => panic!("print is no numeric function"),
    }
}

fn text_of(values: &[Value]) -> String {
    let mut line = String::new();
    for value in values {
        match value {
            Value::Numerical(bits) => line.push_str(&format!("{}", f64::from_bits(*bits))),
            Value::Boolean(b) => line.push_str(&format!("{}", b)),
            Value::Void => {}
        }
    }
    line.push('\n');
    line
}

/// Runs to the end, doing the host's part, and collects what was printed.
fn drive(mut run: Execution<'_>, context: &mut ExecutionContext, output: &mut String) -> Result<(), RuntimeError> {
    loop {
        match run.step(context) {
            Request::Proceed => {}
            Request::Literal(text) => {
                let x: f64 = text.parse().expect("a number literal");
                run.answer(number(x));
            }
            Request::Arithmetic(op, a, b) => run.answer(arithmetic(op, f64::from_bits(a), f64::from_bits(b))),
            Request::Builtin(f, x) => run.answer(number(trigonometry(f, f64::from_bits(x)))),
            Request::Print(values) => output.push_str(&text_of(&values)),
            Request::Waiting => panic!("an answer is owed"),
            Request::Finished => return Ok(()),
            Request::Failed(error) => return Err(error),
        }
    }
}

fn execute(program: &Program, context: &mut ExecutionContext) -> Result<(), RuntimeError> {
    let mut output = String::new();
    drive(program.execute(), context, &mut output)
}

fn compiled(code: &str) -> Result<Program> {
    MeadorCompiler::compile(code).map_err(|e| anyhow::Error::msg(format!("{:?}", e)))
}

fn executed(program: &Program, context: &mut ExecutionContext) -> Result<()> {
    execute(program, context).map_err(|e| anyhow::Error::msg(format!("{:?}", e)))
}

#[test]
fn test_complex_math() -> Result<()> {
    let code = "let x = (6 / (1 + 2 ^ 2)) * 2;".to_string();

    let program = compiled(&code)?;
    let mut context = ExecutionContext::new();

    executed(&program, &mut context)?;

    assert_eq!(context.get_variable(&"x".to_string()), Some(&number(2.4)));

    Ok(())
}

#[test]
fn test_function_call() -> Result<()> {
    let code = "let x = 2;
                let y = sin(x);
                let z = cos(x);"
        .to_string();

    let program = compiled(&code)?;
    let mut context = ExecutionContext::new();

    executed(&program, &mut context)?;

    assert_eq!(context.get_variable(&"x".to_string()), Some(&number(2.0)));
    assert_eq!(context.get_variable(&"y".to_string()), Some(&number(0.9092974268256817)));
    assert_eq!(context.get_variable(&"z".to_string()), Some(&number(-0.4161468365471424)));

    Ok(())
}

#[test]
fn test_negative_numbers() -> Result<()> {
    let code = "let x = -2;
                let y = sin(x);
                let z = cos(x);"
        .to_string();

    let program = compiled(&code)?;
    let mut context = ExecutionContext::new();

    executed(&program, &mut context)?;

    assert_eq!(context.get_variable(&"x".to_string()), Some(&number(-2.0)));
    assert_eq!(context.get_variable(&"y".to_string()), Some(&number(-0.9092974268256817)));
    assert_eq!(context.get_variable(&"z".to_string()), Some(&number(-0.4161468365471424)));

    Ok(())
}

#[test]
fn test_invalid_program_compilation() -> Result<()> {
    let code = "let x = 2 + 2 * 2".to_string();

    let result = MeadorCompiler::compile(&code);

    assert!(result.is_err());

    Ok(())
}

#[test]
fn test_runtime_error() -> Result<()> {
    let code = "let x = 5 + true;".to_string();

    let program = compiled(&code)?;
    let mut context = ExecutionContext::new();

    let result = execute(&program, &mut context);

    assert!(result.is_err());

    Ok(())
}

#[test]
fn test_numeric_expression() -> Result<()> {
    let code = "let x = 2.4;".to_string();

    let program = compiled(&code)?;
    let mut context = ExecutionContext::new();

    executed(&program, &mut context)?;

    assert_eq!(context.get_variable(&"x".to_string()), Some(&number(2.4)));

    Ok(())
}

#[test]
fn test_functional_expression() -> Result<()> {
    let code = "let x = sin(2.4);".to_string();

    let program = compiled(&code)?;
    let mut context = ExecutionContext::new();

    execute(&program, &mut context).unwrap();

    // The sine is the host's, from the platform's libm. The correctly
    // rounded sine of 2.4 lies one unit in the last place below the
    // expected literal, which some libms return; both are accepted.
    let x = match context.get_variable(&"x".to_string()) {
        Some(Value::Numerical(bits)) => *bits,
        other => panic!("a number was expected, not {:?}", other),
    };
    let expected = 0.6754631805511511f64.to_bits();
    assert!(x == expected || x + 1 == expected);

    Ok(())
}

#[test]
fn test_boolean_expression() -> Result<()> {
    let code = "let x = 2 > 1;".to_string();

    let program = compiled(&code)?;
    let mut context = ExecutionContext::new();

    executed(&program, &mut context)?;

    assert_eq!(context.get_variable(&"x".to_string()), Some(&Value::Boolean(true)));

    Ok(())
}

#[test]
fn test_boolean_binary_expression() -> Result<()> {
    let code = "let x = 2 > 1 && 3 < 4;".to_string();

    let program = compiled(&code)?;
    let mut context = ExecutionContext::new();

    execute(&program, &mut context).unwrap();

    assert_eq!(context.get_variable(&"x".to_string()), Some(&Value::Boolean(true)));

    Ok(())
}

#[test]
fn test_parenthesis_expression() -> Result<()> {
    let code = "let x = (2 + 2) * 2;".to_string();

    let program = compiled(&code)?;
    let mut context = ExecutionContext::new();

    execute(&program, &mut context).unwrap();

    assert_eq!(context.get_variable(&"x".to_string()), Some(&number(8.0)));

    Ok(())
}

#[test]
fn test_binary_expression() -> Result<()> {
    let code = "let x = 2 + 2 * 2;".to_string();

    let program = compiled(&code)?;
    let mut context = ExecutionContext::new();

    execute(&program, &mut context).unwrap();

    assert_eq!(context.get_variable(&"x".to_string()), Some(&number(6.0)));

    Ok(())
}

#[test]
#[should_panic]
fn test_invalid_binary_expression() {
    let code = "let x = 2 + 2 *;".to_string();

    MeadorCompiler::compile(&code).unwrap();
}

#[test]
#[should_panic]
fn test_incopatible_types_binary_expression() {
    let code = "let x = 2 + true;".to_string();

    let program = MeadorCompiler::compile(&code).unwrap();
    let mut context = ExecutionContext::new();

    execute(&program, &mut context).unwrap();
}

#[test]
fn test_conditional_statement() -> Result<()> {
    let code = "if 5 > 2 {
            let x = 3;
        } else {
            let x = 4;
        }"
    .to_string();

    let program = compiled(&code)?;
    let mut context = ExecutionContext::new();

    executed(&program, &mut context)?;

    assert_eq!(context.get_variable(&"x".to_string()), Some(&number(3.0)));

    Ok(())
}

#[test]
fn test_variable_assignment() -> Result<()> {
    let code = "let x = 2 + 2 * 2;".to_string();

    let program = compiled(&code)?;
    let mut context = ExecutionContext::new();

    executed(&program, &mut context)?;

    assert_eq!(context.get_variable(&"x".to_string()), Some(&number(6.0)));

    Ok(())
}

#[test]
fn test_while_loop() -> Result<()> {
    let code = "let x = 0;
                while x < 10 {
                    let x = x + 1;
                }"
    .to_string();

    let program = compiled(&code)?;
    let mut context = ExecutionContext::new();

    executed(&program, &mut context)?;

    assert_eq!(context.get_variable(&"x".to_string()), Some(&number(10.0)));

    Ok(())
}

#[test]
fn test_code_block_statement() -> Result<()> {
    let code = "let x = 2;
                {
                    let y = 3;
                    let x = x + y;
                }"
    .to_string();

    let program = compiled(&code)?;
    let mut context = ExecutionContext::new();

    executed(&program, &mut context)?;

    assert_eq!(context.get_variable(&"x".to_string()), Some(&number(5.0)));

    Ok(())
}

fn failure_of(code: &str) -> RuntimeError {
    let program = MeadorCompiler::compile(code).unwrap();
    let mut context = ExecutionContext::new();
    execute(&program, &mut context).unwrap_err()
}

fn variable(context: &ExecutionContext, name: &str) -> Option<Value> {
    context.get_variable(&name.to_string()).copied()
}

#[test]
fn equal_rank_chain_groups_from_the_left() {
    let program = MeadorCompiler::compile("let x = 8 - 4 - 2; let y = 16 / 4 / 2;").unwrap();
    let mut context = ExecutionContext::new();
    execute(&program, &mut context).unwrap();
    assert_eq!(variable(&context, "x"), Some(number(2.0)));
    assert_eq!(variable(&context, "y"), Some(number(2.0)));
}

#[test]
fn higher_rank_chain_nests_to_the_right() {
    let program = MeadorCompiler::compile("let x = 1 + 2 * 3 ^ 2;").unwrap();
    let mut context = ExecutionContext::new();
    execute(&program, &mut context).unwrap();
    assert_eq!(variable(&context, "x"), Some(number(19.0)));
}

#[test]
fn lower_rank_after_a_tighter_subtree_closes_it() {
    // `2 * 3` binds tighter than both `-` and `+`, and `-` and `+` group
    // to the left: (1 - (2 * 3)) + 4.
    let program = MeadorCompiler::compile("let x = 1 - 2 * 3 + 4;").unwrap();
    let mut context = ExecutionContext::new();
    execute(&program, &mut context).unwrap();
    assert_eq!(variable(&context, "x"), Some(number(-1.0)));
}

#[test]
fn power_then_sum_after_a_product() {
    // (2 * (3 ^ 2)) + 1
    let program = MeadorCompiler::compile("let x = 2 * 3 ^ 2 + 1; let y = 2 ^ 3 * 2 - 1 > 10 && true;").unwrap();
    let mut context = ExecutionContext::new();
    execute(&program, &mut context).unwrap();
    assert_eq!(variable(&context, "x"), Some(number(19.0)));
    assert_eq!(variable(&context, "y"), Some(Value::Boolean(true)));
}

#[test]
fn negative_literal_matches_negated_sine() {
    let program = MeadorCompiler::compile("let a = sin(-2); let b = 0 - sin(2); let c = cos(-2); let d = cos(2);").unwrap();
    let mut context = ExecutionContext::new();
    execute(&program, &mut context).unwrap();
    assert_eq!(variable(&context, "a"), variable(&context, "b"));
    assert_eq!(variable(&context, "c"), variable(&context, "d"));
}

#[test]
fn subtraction_of_a_literal_without_space() {
    let program = MeadorCompiler::compile("let x = 5 -2;").unwrap();
    let mut context = ExecutionContext::new();
    execute(&program, &mut context).unwrap();
    assert_eq!(variable(&context, "x"), Some(number(3.0)));
}

#[test]
fn while_loop_tests_before_the_first_iteration() {
    let program = MeadorCompiler::compile("let x = 10; let n = 0; while x < 10 { let n = n + 1; }").unwrap();
    let mut context = ExecutionContext::new();
    execute(&program, &mut context).unwrap();
    assert_eq!(variable(&context, "n"), Some(number(0.0)));
}

#[test]
fn while_loop_counts_its_iterations() {
    let program = MeadorCompiler::compile("let x = 0; let n = 0; while x < 10 { let x = x + 1; let n = n + 1; }").unwrap();
    let mut context = ExecutionContext::new();
    execute(&program, &mut context).unwrap();
    assert_eq!(variable(&context, "n"), Some(number(10.0)));
}

#[test]
fn else_branch_runs_on_false() {
    let program = MeadorCompiler::compile("if 1 > 2 { let x = 3; } else { let x = 4; }").unwrap();
    let mut context = ExecutionContext::new();
    execute(&program, &mut context).unwrap();
    assert_eq!(variable(&context, "x"), Some(number(4.0)));
}

#[test]
fn false_condition_without_else_does_nothing() {
    let program = MeadorCompiler::compile("let x = 1; if false { let x = 2; }").unwrap();
    let mut context = ExecutionContext::new();
    execute(&program, &mut context).unwrap();
    assert_eq!(variable(&context, "x"), Some(number(1.0)));
}

#[test]
fn nested_block_binds_in_the_shared_environment() {
    let program = MeadorCompiler::compile("{ { let y = 7; } } let z = y;").unwrap();
    let mut context = ExecutionContext::new();
    execute(&program, &mut context).unwrap();
    assert_eq!(variable(&context, "z"), Some(number(7.0)));
}

#[test]
fn print_writes_values_without_separator() {
    let program = MeadorCompiler::compile("print(1.5, true, 2 < 1); print();").unwrap();
    let mut context = ExecutionContext::new();
    let mut output = String::new();
    drive(program.execute(), &mut context, &mut output).unwrap();
    assert_eq!(output, "1.5truefalse\n\n");
}

#[test]
fn print_evaluates_to_void() {
    let program = MeadorCompiler::compile("let v = print(2);").unwrap();
    let mut context = ExecutionContext::new();
    execute(&program, &mut context).unwrap();
    assert_eq!(variable(&context, "v"), Some(Value::Void));
}

#[test]
fn unknown_variable_fails() {
    assert_eq!(failure_of("let x = y + 1;"), RuntimeError::UnknownVariable("y".to_string()));
}

#[test]
fn unknown_function_fails() {
    assert_eq!(failure_of("foo(1);"), RuntimeError::UnknownFunction("foo".to_string()));
}

#[test]
fn trigonometry_takes_one_number() {
    assert_eq!(failure_of("let x = sin(true);"), RuntimeError::InvalidArguments(Function::Sin));
    assert_eq!(failure_of("let x = atan(1, 2);"), RuntimeError::InvalidArguments(Function::Atan));
    assert_eq!(failure_of("let x = cos();"), RuntimeError::InvalidArguments(Function::Cos));
}

#[test]
fn mixed_operands_fail() {
    assert_eq!(
        failure_of("let x = 5 + true;"),
        RuntimeError::InvalidOperator(BiOperator::Add, number(5.0), Value::Boolean(true))
    );
}

#[test]
fn not_equal_always_fails() {
    assert_eq!(
        failure_of("let x = 1 != 2;"),
        RuntimeError::InvalidOperator(BiOperator::NotEqual, number(1.0), number(2.0))
    );
    assert_eq!(
        failure_of("let x = true != false;"),
        RuntimeError::InvalidOperator(BiOperator::NotEqual, Value::Boolean(true), Value::Boolean(false))
    );
}

#[test]
fn logical_operator_on_numbers_fails() {
    assert_eq!(
        failure_of("let x = 1 && 2;"),
        RuntimeError::InvalidOperator(BiOperator::Conjuction, number(1.0), number(2.0))
    );
}

#[test]
fn void_operand_fails() {
    assert_eq!(
        failure_of("let x = print() + 1;"),
        RuntimeError::InvalidOperator(BiOperator::Add, Value::Void, number(1.0))
    );
}

#[test]
fn numeric_condition_fails() {
    assert_eq!(failure_of("if 1 { let x = 2; }"), RuntimeError::InvalidConditionType(number(1.0)));
    assert_eq!(failure_of("while 0 { }"), RuntimeError::InvalidConditionType(number(0.0)));
}

#[test]
fn error_stops_the_rest_of_the_program() {
    let program = MeadorCompiler::compile("let a = 1; let b = c; let d = 2;").unwrap();
    let mut context = ExecutionContext::new();
    assert!(execute(&program, &mut context).is_err());
    assert_eq!(variable(&context, "a"), Some(number(1.0)));
    assert_eq!(variable(&context, "d"), None);
}

#[test]
fn division_by_zero_is_infinite() {
    let program = MeadorCompiler::compile("let x = 1 / 0;").unwrap();
    let mut context = ExecutionContext::new();
    execute(&program, &mut context).unwrap();
    assert_eq!(variable(&context, "x"), Some(number(f64::INFINITY)));
}

#[test]
fn recompiling_gives_the_same_results() {
    let code = "let x = 3; while x > 0 { let x = x - 1; let y = x * 2; }";
    let first = MeadorCompiler::compile(code).unwrap();
    let second = MeadorCompiler::compile(code).unwrap();
    let mut a = ExecutionContext::new();
    let mut b = ExecutionContext::new();
    execute(&first, &mut a).unwrap();
    execute(&second, &mut b).unwrap();
    assert_eq!(variable(&a, "x"), variable(&b, "x"));
    assert_eq!(variable(&a, "y"), variable(&b, "y"));
    assert_eq!(variable(&a, "y"), Some(number(0.0)));
}

#[test]
fn expression_run_leaves_its_value() {
    let program = MeadorCompiler::compile("let x = 2 ^ 3;").unwrap();
    let statement = &program.statements()[0];
    let mut context = ExecutionContext::new();
    let mut output = String::new();
    drive(statement.execute(), &mut context, &mut output).unwrap();
    assert_eq!(variable(&context, "x"), Some(number(8.0)));
    if let meadorc::statement::Statement::Assignment(_, expression) = statement {
        let mut run = expression.evaluate();
        loop {
            match run.step(&mut context) {
                Request::Proceed => {}
                Request::Literal(text) => run.answer(number(text.parse().unwrap())),
                Request::Arithmetic(op, a, b) => run.answer(arithmetic(op, f64::from_bits(a), f64::from_bits(b))),
                Request::Finished => break,
                other => panic!("unexpected request {:?}", other),
            }
        }
        assert_eq!(run.result(), Some(number(8.0)));
    } else {
        panic!("an assignment was expected");
    }
}

#[test]
fn waiting_until_answered() {
    let program = MeadorCompiler::compile("let x = 1;").unwrap();
    let mut context = ExecutionContext::new();
    let mut run = program.execute();
    assert!(matches!(run.step(&mut context), Request::Proceed));
    assert!(matches!(run.step(&mut context), Request::Literal(_)));
    assert!(matches!(run.step(&mut context), Request::Waiting));
    run.answer(number(1.0));
    assert!(matches!(run.step(&mut context), Request::Proceed));
    assert!(matches!(run.step(&mut context), Request::Finished));
    assert_eq!(variable(&context, "x"), Some(number(1.0)));
}

#[test]
fn missing_semicolon_is_refused_where_input_ends() {
    let error = MeadorCompiler::compile("let x = 2 + 2 * 2").unwrap_err();
    assert!(matches!(
        error,
        CompilationError::StartOfProgram { pos: meadorc::compiler::ErrorLocation::Position(17), .. }
    ));
}

#[test]
fn dangling_operator_is_refused_at_the_next_token() {
    let error = MeadorCompiler::compile("let x = 2 + 2 *;").unwrap_err();
    assert!(matches!(
        error,
        CompilationError::StartOfProgram { pos: meadorc::compiler::ErrorLocation::Position(15), .. }
    ));
}

#[test]
fn stray_character_is_refused_where_it_stands() {
    let error = MeadorCompiler::compile("let x = 2 # 3;").unwrap_err();
    assert!(matches!(
        error,
        CompilationError::StartOfProgram { pos: meadorc::compiler::ErrorLocation::Position(10), .. }
    ));
}

#[test]
fn empty_source_is_refused() {
    let error = MeadorCompiler::compile("  \n ").unwrap_err();
    assert!(matches!(
        error,
        CompilationError::StartOfProgram { pos: meadorc::compiler::ErrorLocation::Position(0), .. }
    ));
}
