use minilang::compile::checks::resolution::{Annotations, FunctionInfo, VariableKind};
use minilang::compile::compiler::Compiler;
use minilang::compile::emission::{CompileError, CompileErrorKind};
use minilang::compile_program;
use minilang::compile_tree;
use minilang::data::gc::GC;
use minilang::parsing::ast::{Expr, Stmt};
use minilang::parsing::lexer::{Position, Token, TokenKind};

fn diagnostic(source: String) -> String {
    let mut gc = GC::default_gc();
    match compile_program(source, &mut gc) {
        Ok(entry) => panic!("the program compiled to {:?}", entry),
        Err(text) => text,
    }
}

fn token(kind: TokenKind, line: u32, column: u32) -> Token {
    Token { kind, position: Position { line, column } }
}

fn block(line: u32, stmts: Vec<Stmt>) -> Expr {
    Expr::Block(
        token(TokenKind::BeginBlock, line, 1),
        token(TokenKind::EndBlock, line + 100, 1),
        stmts,
    )
}

fn number(n: i64, line: u32, column: u32) -> Expr {
    Expr::Number(token(TokenKind::Number(n), line, column))
}

fn call_with_arguments(count: usize) -> String {
    let mut source = String::from("f(");
    for i in 0..count {
        if i > 0 {
            source.push_str(", ");
        }
        source.push('1');
    }
    source.push(')');
    source
}

#[test]
fn a_branch_too_long_to_jump_over_is_refused() {
    let mut source = String::from("var c = f\nprint if c then {\n");
    for _ in 0..40000 {
        source.push_str("100000\n");
    }
    source.push_str("7\n} else 0");
    assert_eq!(diagnostic(source), "jump too far at [2:10]");
}

#[test]
fn a_branch_short_enough_to_jump_over_compiles() {
    let mut source = String::from("var c = f\nprint if c then {\n");
    for _ in 0..1000 {
        source.push_str("100000\n");
    }
    source.push_str("7\n} else 0");
    let mut gc = GC::default_gc();
    assert!(compile_program(source, &mut gc).is_ok());
}

#[test]
fn more_arguments_than_an_instruction_counts_are_refused() {
    let callee = Expr::Name(token(TokenKind::Name("f".to_string()), 2, 1));
    let mut args = Vec::new();
    for i in 0..65536u32 {
        args.push(number(1, 3, i + 1));
    }
    let call = Expr::Call(Box::new(callee), args);
    let program = block(1, vec![Stmt::Expression(call)]);
    let key = Position { line: 1, column: 1 };
    let annotations = Annotations {
        variables: vec![(Position { line: 2, column: 1 }, VariableKind::Global)],
        functions: vec![(key, FunctionInfo { closed_names: Vec::new(), upvalues: Vec::new() })],
        blocks: vec![(key, 0)],
    };
    let mut gc = GC::default_gc();
    assert_eq!(
        Compiler::compile(&program, &annotations, &mut gc),
        Err(CompileError {
            kind: CompileErrorKind::TooManyArguments,
            at: Position { line: 2, column: 1 },
        })
    );
}

#[test]
fn more_values_than_a_frame_holds_are_refused() {
    let text = diagnostic(call_with_arguments(65535));
    assert!(text.starts_with("too many values in one function at [1:"), "{}", text);
}

#[test]
fn a_call_with_many_arguments_compiles() {
    let mut gc = GC::default_gc();
    assert!(compile_program(call_with_arguments(2000), &mut gc).is_ok());
}

#[test]
fn assignment_to_what_is_no_property_is_refused() {
    let program = block(
        1,
        vec![Stmt::PropertyAssignment(number(1, 2, 1), number(2, 2, 5))],
    );
    let mut gc = GC::default_gc();
    assert_eq!(
        compile_tree(&program, &mut gc),
        Err("invalid assignment target at [2:1]".to_string())
    );
}

#[test]
fn an_operator_that_is_none_is_refused() {
    let sum = Expr::Binary(
        token(TokenKind::Comma, 2, 3),
        Box::new(Expr::Name(token(TokenKind::Name("a".to_string()), 2, 1))),
        Box::new(Expr::Name(token(TokenKind::Name("b".to_string()), 2, 5))),
    );
    let program = block(1, vec![Stmt::Expression(sum)]);
    let mut gc = GC::default_gc();
    assert_eq!(compile_tree(&program, &mut gc), Err("malformed token at [2:3]".to_string()));
}

#[test]
fn a_table_without_the_program_is_refused() {
    let program = block(1, vec![Stmt::Expression(number(1, 2, 1))]);
    let annotations = Annotations { variables: Vec::new(), functions: Vec::new(), blocks: Vec::new() };
    let mut gc = GC::default_gc();
    assert_eq!(
        Compiler::compile(&program, &annotations, &mut gc),
        Err(CompileError {
            kind: CompileErrorKind::MissingAnnotation,
            at: Position { line: 1, column: 1 },
        })
    );
}

#[test]
fn a_local_in_another_slot_than_the_table_says_is_refused() {
    let name = token(TokenKind::Name("a".to_string()), 2, 5);
    let program = block(1, vec![Stmt::VarDeclaration(name, Some(number(1, 2, 9)))]);
    let key = Position { line: 1, column: 1 };
    let annotations = Annotations {
        variables: vec![(Position { line: 2, column: 5 }, VariableKind::Local(5))],
        functions: vec![(key, FunctionInfo { closed_names: Vec::new(), upvalues: Vec::new() })],
        blocks: vec![(key, 1)],
    };
    let mut gc = GC::default_gc();
    assert_eq!(
        Compiler::compile(&program, &annotations, &mut gc),
        Err(CompileError {
            kind: CompileErrorKind::SlotMismatch,
            at: Position { line: 2, column: 5 },
        })
    );
}

#[test]
fn a_table_that_fits_the_program_is_accepted() {
    let name = token(TokenKind::Name("a".to_string()), 2, 5);
    let program = block(1, vec![Stmt::VarDeclaration(name, Some(number(1, 2, 9)))]);
    let key = Position { line: 1, column: 1 };
    let annotations = Annotations {
        variables: vec![(Position { line: 2, column: 5 }, VariableKind::Local(1))],
        functions: vec![(key, FunctionInfo { closed_names: Vec::new(), upvalues: Vec::new() })],
        blocks: vec![(key, 1)],
    };
    let mut gc = GC::default_gc();
    assert!(Compiler::compile(&program, &annotations, &mut gc).is_ok());
}
