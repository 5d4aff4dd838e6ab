use meadorc::bi_operator::{Application, BiOperator};
use meadorc::compiler::MeadorParser;
use meadorc::expression::Expression;
use meadorc::lexer::{tokenize, Token, TokenKind};
use meadorc::runtime::{ExecutionContext, RuntimeError};
use meadorc::statement::Statement;
use meadorc::value::Value;

fn kinds(code: &str) -> Vec<TokenKind> {
    let chars: Vec<char> = code.chars().collect();
    tokenize(&chars).unwrap().iter().map(|t: &Token| t.kind).collect()
}

#[test]
fn tokens_of_a_statement() {
    assert_eq!(
        kinds("let x1 = 2.5 <= y;"),
        vec![
            TokenKind::Let,
            TokenKind::Identifier,
            TokenKind::Assign,
            TokenKind::Number,
            TokenKind::Operator(BiOperator::LessThanOrEqual),
            TokenKind::Identifier,
            TokenKind::Semicolon,
        ]
    );
}

#[test]
fn two_character_operators_win() {
    assert_eq!(
        kinds("a&&b||c!=d>=e"),
        vec![
            TokenKind::Identifier,
            TokenKind::Operator(BiOperator::Conjuction),
            TokenKind::Identifier,
            TokenKind::Operator(BiOperator::Disjunction),
            TokenKind::Identifier,
            TokenKind::Operator(BiOperator::NotEqual),
            TokenKind::Identifier,
            TokenKind::Operator(BiOperator::GreaterThanOrEqual),
            TokenKind::Identifier,
        ]
    );
}

#[test]
fn number_needs_a_digit_after_its_point() {
    let chars: Vec<char> = "2.x".chars().collect();
    let tokens = tokenize(&chars);
    assert_eq!(tokens, Err(1));
}

#[test]
fn keywords_are_not_names() {
    assert_eq!(
        kinds("if else while true false letter"),
        vec![
            TokenKind::If,
            TokenKind::Else,
            TokenKind::While,
            TokenKind::True,
            TokenKind::False,
            TokenKind::Identifier,
        ]
    );
}

#[test]
fn precedence_ranks() {
    assert_eq!(BiOperator::Disjunction.precedence(), 1);
    assert_eq!(BiOperator::Conjuction.precedence(), 2);
    assert_eq!(BiOperator::LessThan.precedence(), 3);
    assert_eq!(BiOperator::NotEqual.precedence(), 3);
    assert_eq!(BiOperator::Subtract.precedence(), 4);
    assert_eq!(BiOperator::Divide.precedence(), 5);
    assert_eq!(BiOperator::Power.precedence(), 6);
}

#[test]
fn apply_decides_booleans() {
    assert_eq!(
        BiOperator::Conjuction.apply(Value::Boolean(true), Value::Boolean(false)),
        Ok(Application::Computed(Value::Boolean(false)))
    );
    assert_eq!(
        BiOperator::Disjunction.apply(Value::Boolean(true), Value::Boolean(false)),
        Ok(Application::Computed(Value::Boolean(true)))
    );
}

#[test]
fn apply_hands_numbers_to_the_host() {
    let a = 1.0f64.to_bits();
    let b = 2.0f64.to_bits();
    assert_eq!(
        BiOperator::Power.apply(Value::Numerical(a), Value::Numerical(b)),
        Ok(Application::Numeric(BiOperator::Power, a, b))
    );
}

#[test]
fn apply_refuses_mixed_types() {
    let a = 5.0f64.to_bits();
    assert_eq!(
        BiOperator::Add.apply(Value::Numerical(a), Value::Boolean(true)),
        Err(RuntimeError::InvalidOperator(BiOperator::Add, Value::Numerical(a), Value::Boolean(true)))
    );
    assert_eq!(
        BiOperator::LessThan.apply(Value::Boolean(true), Value::Boolean(true)),
        Err(RuntimeError::InvalidOperator(BiOperator::LessThan, Value::Boolean(true), Value::Boolean(true)))
    );
}

#[test]
fn parse_nests_by_rank() {
    let statements = MeadorParser::parse("let x = 1 + 2 * 3;").unwrap();
    match &statements[0] {
        Statement::Assignment(name, Expression::BinaryExpression(left, BiOperator::Add, right)) => {
            assert_eq!(name, "x");
            assert!(matches!(**left, Expression::Number(ref t) if t == "1"));
            assert!(matches!(**right, Expression::BinaryExpression(_, BiOperator::Multiply, _)));
        }
        other => panic!("unexpected statement {:?}", other),
    }
}

#[test]
fn parse_keeps_brackets_and_calls() {
    let statements = MeadorParser::parse("print((1), f(), -3);").unwrap();
    match &statements[0] {
        Statement::FunctionCall(Expression::Function(name, args)) => {
            assert_eq!(name, "print");
            assert_eq!(args.len(), 3);
            assert!(matches!(args[0], Expression::BracketExpression(_)));
            assert!(matches!(args[1], Expression::Function(ref f, ref a) if f == "f" && a.is_empty()));
            assert!(matches!(args[2], Expression::Number(ref t) if t == "-3"));
        }
        other => panic!("unexpected statement {:?}", other),
    }
}

#[test]
fn parse_builds_control_flow() {
    let statements = MeadorParser::parse("if a { } else { b(); } while c { }").unwrap();
    assert_eq!(statements.len(), 2);
    assert!(matches!(&statements[0], Statement::Conditional(_, _, Some(_))));
    assert!(matches!(&statements[1], Statement::Loop(_, _)));
}

#[test]
fn parse_reports_the_failing_offset() {
    assert_eq!(MeadorParser::parse("let = 2;").err(), Some(4));
    assert_eq!(MeadorParser::parse("if x { let y = 1; ").err(), Some(18));
}

#[test]
fn context_rebinds_a_name() {
    let mut context = ExecutionContext::new();
    context.set_variable("x".to_string(), Value::Boolean(true));
    context.set_variable("y".to_string(), Value::Void);
    context.set_variable("x".to_string(), Value::Boolean(false));
    assert_eq!(context.get_variable(&"x".to_string()), Some(&Value::Boolean(false)));
    assert_eq!(context.get_variable(&"y".to_string()), Some(&Value::Void));
    assert_eq!(context.get_variable(&"z".to_string()), None);
}

#[test]
fn runtime_error_with_a_message() {
    assert_eq!(RuntimeError::new("stop".to_string()), RuntimeError::Message("stop".to_string()));
}
