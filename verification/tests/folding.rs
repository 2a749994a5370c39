use minilang::compile::checks::optimization::optimize;
use minilang::compile::checks::resolution::Resolver;
use minilang::compile::compiler::Compiler;
use minilang::compile_tree;
use minilang::data::gc::GC;
use minilang::data::objects::Value;
use minilang::execution::builtins::builtin_factory;
use minilang::execution::vm::{RuntimeErrorKind, VM};
use minilang::parsing::ast::Expr;
use minilang::parsing::lexer::{Position, Token, TokenKind};

fn token(kind: TokenKind, column: u32) -> Token {
    Token { kind, position: Position { line: 1, column } }
}

fn number(n: i64, column: u32) -> Expr {
    Expr::Number(token(TokenKind::Number(n), column))
}

fn binary(kind: TokenKind, column: u32, lhs: Expr, rhs: Expr) -> Expr {
    Expr::Binary(token(kind, column), Box::new(lhs), Box::new(rhs))
}

fn negation(column: u32, operand: Expr) -> Expr {
    Expr::Unary(token(TokenKind::Not, column), Box::new(operand))
}

/// What running the function with the body `body` comes to: its value, or
/// the kind of its failure.
fn outcome(body: &Expr) -> Result<Value, RuntimeErrorKind> {
    let builtins = builtin_factory();
    let annotations = match Resolver::resolve(body, &builtins) {
        Ok(annotations) => annotations,
        Err(error) => panic!("the analysis failed: {}", error.to_string()),
    };
    let mut gc = GC::default_gc();
    let entry = match Compiler::compile(body, &annotations, &mut gc) {
        Ok(entry) => entry,
        Err(error) => panic!("the compiler failed: {}", error.to_string()),
    };
    let mut vm = VM::new(gc, &builtins);
    match vm.run(entry) {
        Ok(value) => Ok(value),
        Err(error) => Err(error.kind),
    }
}

/// What compiling the program `program`, which folds what it can, and
/// running it comes to.
fn program_outcome(program: &Expr) -> Result<Value, RuntimeErrorKind> {
    let builtins = builtin_factory();
    let mut gc = GC::default_gc();
    let entry = match compile_tree(program, &mut gc) {
        Ok(entry) => entry,
        Err(text) => panic!("the program does not compile: {}", text),
    };
    let mut vm = VM::new(gc, &builtins);
    match vm.run(entry) {
        Ok(value) => Ok(value),
        Err(error) => Err(error.kind),
    }
}

fn both(body: Expr) -> (Result<Value, RuntimeErrorKind>, Result<Value, RuntimeErrorKind>) {
    let folded = optimize(&body);
    (outcome(&body), outcome(&folded))
}

#[test]
fn an_expression_runs_to_its_value_folded_or_not() {
    let product = binary(TokenKind::Star, 7, number(3, 5), number(4, 9));
    let sum = binary(TokenKind::Plus, 3, number(2, 1), product);
    let (plain, folded) = both(sum);
    assert!(matches!(plain, Ok(Value::Int(14))), "{:?}", plain);
    assert!(matches!(folded, Ok(Value::Int(14))), "{:?}", folded);
}

#[test]
fn the_folded_form_of_an_expression_is_its_value() {
    let product = binary(TokenKind::Star, 7, number(3, 5), number(4, 9));
    let sum = binary(TokenKind::Plus, 3, number(2, 1), product);
    match optimize(&sum) {
        Expr::Number(token) => assert!(matches!(token.kind, TokenKind::Number(14))),
        other => panic!("not folded: {:?}", other),
    }
}

#[test]
fn a_division_by_zero_fails_folded_or_not() {
    let quotient = binary(TokenKind::Slash, 3, number(1, 1), number(0, 5));
    let sum = binary(TokenKind::Plus, 7, quotient, number(5, 9));
    let (plain, folded) = both(sum);
    assert!(matches!(plain, Err(RuntimeErrorKind::DivisionByZero)), "{:?}", plain);
    assert!(matches!(folded, Err(RuntimeErrorKind::DivisionByZero)), "{:?}", folded);
}

#[test]
fn a_negative_exponent_fails_folded_or_not() {
    let minus_one = binary(TokenKind::Minus, 5, number(0, 3), number(1, 7));
    let power = binary(TokenKind::Power, 2, number(2, 1), minus_one);
    let (plain, folded) = both(power);
    assert!(matches!(plain, Err(RuntimeErrorKind::RuntimeTypeError)), "{:?}", plain);
    assert!(matches!(folded, Err(RuntimeErrorKind::RuntimeTypeError)), "{:?}", folded);
}

#[test]
fn and_leaves_its_right_operand_alone_where_the_left_decides() {
    let quotient = binary(TokenKind::Slash, 9, number(1, 7), number(0, 11));
    let and = binary(TokenKind::And, 3, number(0, 1), quotient);
    let (plain, folded) = both(and);
    assert!(matches!(plain, Ok(Value::Int(0))), "{:?}", plain);
    assert!(matches!(folded, Ok(Value::Int(0))), "{:?}", folded);
}

#[test]
fn or_leaves_its_right_operand_alone_where_the_left_decides() {
    let quotient = binary(TokenKind::Slash, 9, number(1, 7), number(0, 11));
    let or = binary(TokenKind::Or, 3, number(5, 1), quotient);
    let (plain, folded) = both(or);
    assert!(matches!(plain, Ok(Value::Int(1))), "{:?}", plain);
    assert!(matches!(folded, Ok(Value::Int(1))), "{:?}", folded);
}

#[test]
fn and_and_or_evaluate_the_right_operand_where_the_left_does_not_decide() {
    let quotient = binary(TokenKind::Slash, 9, number(1, 7), number(0, 11));
    let and = binary(TokenKind::And, 3, number(1, 1), quotient);
    let (plain, folded) = both(and);
    assert!(matches!(plain, Err(RuntimeErrorKind::DivisionByZero)), "{:?}", plain);
    assert!(matches!(folded, Err(RuntimeErrorKind::DivisionByZero)), "{:?}", folded);
    let or = binary(TokenKind::Or, 3, number(0, 1), number(7, 5));
    let (plain, folded) = both(or);
    assert!(matches!(plain, Ok(Value::Int(1))), "{:?}", plain);
    assert!(matches!(folded, Ok(Value::Int(1))), "{:?}", folded);
    let and = binary(TokenKind::And, 3, number(3, 1), number(0, 5));
    let (plain, folded) = both(and);
    assert!(matches!(plain, Ok(Value::Int(0))), "{:?}", plain);
    assert!(matches!(folded, Ok(Value::Int(0))), "{:?}", folded);
}

#[test]
fn comparisons_and_negation_give_one_or_zero() {
    let less = binary(TokenKind::CompareLess, 3, number(2, 1), number(3, 5));
    let (plain, folded) = both(negation(1, less));
    assert!(matches!(plain, Ok(Value::Int(0))), "{:?}", plain);
    assert!(matches!(folded, Ok(Value::Int(0))), "{:?}", folded);
    let equal = binary(TokenKind::CompareEquals, 3, number(100000, 1), number(100000, 9));
    let (plain, folded) = both(equal);
    assert!(matches!(plain, Ok(Value::Int(1))), "{:?}", plain);
    assert!(matches!(folded, Ok(Value::Int(1))), "{:?}", folded);
}

#[test]
fn a_program_that_is_an_expression_runs_to_its_value() {
    let product = binary(TokenKind::Star, 7, number(3, 5), number(4, 9));
    let sum = binary(TokenKind::Plus, 3, number(2, 1), product);
    let compiled = program_outcome(&sum);
    assert!(matches!(compiled, Ok(Value::Int(14))), "{:?}", compiled);
    let quotient = binary(TokenKind::Slash, 3, number(1, 1), number(0, 5));
    let failed = program_outcome(&quotient);
    assert!(matches!(failed, Err(RuntimeErrorKind::DivisionByZero)), "{:?}", failed);
    let or = binary(TokenKind::Or, 3, number(0, 1), number(0, 5));
    let neither = program_outcome(&or);
    assert!(matches!(neither, Ok(Value::Int(0))), "{:?}", neither);
}

#[test]
fn sums_wrap_around_folded_or_not() {
    let sum = binary(TokenKind::Plus, 3, number(i64::MAX, 1), number(1, 25));
    let (plain, folded) = both(sum);
    assert!(matches!(plain, Ok(Value::Int(i64::MIN))), "{:?}", plain);
    assert!(matches!(folded, Ok(Value::Int(i64::MIN))), "{:?}", folded);
}
