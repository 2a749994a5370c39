use minilang::compile::checks::name_definition_check::NameRedefinitionChecker;
use minilang::compile::checks::optimization::optimize;
use minilang::compile::checks::resolution::{Resolver, VariableKind};
use minilang::execution::builtins::{builtin_factory, BuiltinError};
use minilang::execution::chunk::UpvalueDescriptor;
use minilang::parsing::ast::{Expr, Stmt};
use minilang::parsing::lexer::{Position, Token, TokenKind};
use minilang::parsing::parser::parse;
use minilang::parsing::scanner::tokenize;
use minilang::repl::{Repl, ReplAction};
use minilang::text::{normalize_string, parse_i64, render_i64, render_u64};

fn kinds(source: &str) -> Vec<TokenKind> {
    tokenize(source).unwrap().into_iter().map(|t| t.kind).collect()
}

fn tree(source: &str) -> Expr {
    parse(&tokenize(source).unwrap()).unwrap()
}

fn statements(source: &str) -> Vec<Stmt> {
    match tree(source) {
        Expr::Block(_, _, stmts) => stmts,
        other => panic!("the program is no block: {:?}", other),
    }
}

fn same_kind(a: &TokenKind, b: &TokenKind) -> bool {
    format!("{:?}", a) == format!("{:?}", b)
}

#[test]
fn normalizing_is_joining_the_lines_with_line_feeds() {
    for text in [
        "",
        "\n",
        "\r\n",
        "a",
        "a\n",
        "a\r\n",
        "a\nb",
        "a\r\nb\r\n",
        "a\n\nb",
        "\n\n",
        "a\r",
        "a\rb",
        "\r\r\n",
        "x\r\n\r\ny\n",
    ] {
        let expected = text.lines().collect::<Vec<_>>().join("\n");
        assert_eq!(normalize_string(text.to_string()), expected, "for {:?}", text);
    }
    assert_eq!(normalize_string("a\r\nb\r\n".to_string()), "a\nb");
}

#[test]
fn integers_are_read_as_the_standard_library_reads_them() {
    for text in [
        "0", "7", "-7", "+7", "007", "-0", "", "+", "-", " 1", "1 ", "1_000", "12a", "\u{661}",
        "9223372036854775807", "9223372036854775808", "-9223372036854775808",
        "-9223372036854775809", "123456789012345678901234567890",
    ] {
        assert_eq!(parse_i64(text), text.parse::<i64>().ok(), "for {:?}", text);
    }
    assert_eq!(parse_i64("-42"), Some(-42));
}

#[test]
fn numbers_are_written_in_decimal() {
    assert_eq!(render_u64(0), "0");
    assert_eq!(render_u64(10), "10");
    assert_eq!(render_u64(u64::MAX), "18446744073709551615");
    assert_eq!(render_i64(0), "0");
    assert_eq!(render_i64(-1), "-1");
    assert_eq!(render_i64(i64::MIN), "-9223372036854775808");
    assert_eq!(render_i64(i64::MAX), "9223372036854775807");
}

#[test]
fn tokens_of_a_program_stand_in_a_block() {
    let tokens = tokenize("var x = 10\nprint x").unwrap();
    let expected = vec![
        (TokenKind::BeginBlock, 1, 1),
        (TokenKind::Var, 1, 1),
        (TokenKind::Name("x".to_string()), 1, 5),
        (TokenKind::Equals, 1, 7),
        (TokenKind::Number(10), 1, 9),
        (TokenKind::LineEnd, 1, 11),
        (TokenKind::Print, 2, 1),
        (TokenKind::Name("x".to_string()), 2, 7),
        (TokenKind::EndBlock, 2, 8),
    ];
    assert_eq!(tokens.len(), expected.len());
    for (token, (kind, line, column)) in tokens.iter().zip(expected.iter()) {
        assert!(same_kind(&token.kind, kind), "{:?} is not {:?}", token.kind, kind);
        assert_eq!(token.position, Position { line: *line, column: *column });
    }
}

#[test]
fn signs_of_two_characters_win_over_one() {
    let expected = vec![
        TokenKind::BeginBlock,
        TokenKind::CompareEquals,
        TokenKind::Equals,
        TokenKind::CompareNotEquals,
        TokenKind::CompareGreaterEqual,
        TokenKind::CompareGreater,
        TokenKind::CompareLessEqual,
        TokenKind::CompareLess,
        TokenKind::Arrow,
        TokenKind::Minus,
        TokenKind::Power,
        TokenKind::Star,
        TokenKind::Plus,
        TokenKind::Slash,
        TokenKind::Mod,
        TokenKind::LParen,
        TokenKind::RParen,
        TokenKind::Comma,
        TokenKind::Dot,
        TokenKind::QuestionMark,
        TokenKind::Colon,
        TokenKind::BeginBlock,
        TokenKind::EndBlock,
        TokenKind::EndBlock,
    ];
    let found = kinds("== = != >= > <= < -> - ** * + / % ( ) , . ? : { }");
    assert_eq!(found.len(), expected.len());
    for (a, b) in found.iter().zip(expected.iter()) {
        assert!(same_kind(a, b), "{:?} is not {:?}", a, b);
    }
}

#[test]
fn keywords_names_numbers_and_strings() {
    let expected = vec![
        TokenKind::BeginBlock,
        TokenKind::Var,
        TokenKind::Def,
        TokenKind::Struct,
        TokenKind::Enum,
        TokenKind::Impl,
        TokenKind::Print,
        TokenKind::Assert,
        TokenKind::Pass,
        TokenKind::If,
        TokenKind::Then,
        TokenKind::ELif,
        TokenKind::Else,
        TokenKind::And,
        TokenKind::Or,
        TokenKind::Not,
        TokenKind::Blank,
        TokenKind::Name("variable".to_string()),
        TokenKind::Name("_x1".to_string()),
        TokenKind::Name("iffy".to_string()),
        TokenKind::Number(0),
        TokenKind::Number(9223372036854775807),
        TokenKind::ConstString("a b".to_string()),
        TokenKind::ConstString("".to_string()),
        TokenKind::EndBlock,
    ];
    let found = kinds(
        "var def struct enum impl print assert pass if then elif else and or not _ variable _x1 iffy 0 9223372036854775807 \"a b\" \"\"",
    );
    assert_eq!(found.len(), expected.len());
    for (a, b) in found.iter().zip(expected.iter()) {
        assert!(same_kind(a, b), "{:?} is not {:?}", a, b);
    }
}

#[test]
fn lexical_errors_are_diagnostics() {
    assert_eq!(tokenize("a $").err(), Some("unexpected character at [1:3]".to_string()));
    assert_eq!(tokenize("!").err(), Some("unexpected character at [1:1]".to_string()));
    assert_eq!(tokenize("\n\n \"abc\n\"").err(), Some("unterminated string at [3:2]".to_string()));
    assert_eq!(tokenize("9223372036854775808").err(), Some("number too large at [1:1]".to_string()));
}

#[test]
fn operators_bind_by_their_levels() {
    let stmts = statements("1 + 2 * 3 == 7 and not 0 or 0");
    let text = format!("{:?}", stmts[0]);
    let or = text.find("kind: Or").unwrap();
    let and = text.find("kind: And").unwrap();
    let eq = text.find("kind: CompareEquals").unwrap();
    let plus = text.find("kind: Plus").unwrap();
    let star = text.find("kind: Star").unwrap();
    assert!(or < and && and < eq && eq < plus && plus < star, "{}", text);
}

#[test]
fn subtraction_is_left_associative() {
    match &statements("10 - 4 - 3")[0] {
        Stmt::Expression(Expr::Binary(_, lhs, rhs)) => {
            assert!(matches!(**lhs, Expr::Binary(_, _, _)));
            assert!(matches!(**rhs, Expr::Number(_)));
        }
        other => panic!("unexpected tree {:?}", other),
    }
}

#[test]
fn statements_of_every_kind_are_parsed() {
    let stmts = statements(
        "var a\nvar b = 1\ndef f(x, *rest) = x\ndef g = 1\nstruct S: { p, q }\nstruct T\nenum E: {\n A\n B: { v }\n}\nimpl S: {\n def m(self) = 1\n}\na = 2\na.p = 3\nassert a\npass\nprint a\na",
    );
    assert_eq!(stmts.len(), 14);
    assert!(matches!(&stmts[0], Stmt::VarDeclaration(_, None)));
    assert!(matches!(&stmts[1], Stmt::VarDeclaration(_, Some(_))));
    assert!(matches!(&stmts[2], Stmt::FunctionDeclaration { args, vararg: Some(_), .. } if args.len() == 1));
    assert!(matches!(&stmts[3], Stmt::FunctionDeclaration { args, vararg: None, .. } if args.is_empty()));
    assert!(matches!(&stmts[4], Stmt::StructDeclaration { fields, .. } if fields.len() == 2));
    assert!(matches!(&stmts[5], Stmt::StructDeclaration { fields, .. } if fields.is_empty()));
    assert!(matches!(&stmts[6], Stmt::EnumDeclaration { variants, .. } if variants.len() == 2 && variants[1].fields.len() == 1));
    assert!(matches!(&stmts[7], Stmt::ImplBlock { implementations, .. } if implementations.len() == 1));
    assert!(matches!(&stmts[8], Stmt::Assignment(_, _)));
    assert!(matches!(&stmts[9], Stmt::PropertyAssignment(_, _)));
    assert!(matches!(&stmts[10], Stmt::Assert(_, _)));
    assert!(matches!(&stmts[11], Stmt::Pass(_)));
    assert!(matches!(&stmts[12], Stmt::Print(_, _)));
    assert!(matches!(&stmts[13], Stmt::Expression(Expr::Name(_))));
}

#[test]
fn expressions_of_every_kind_are_parsed() {
    let stmts = statements(
        "f(1, 2)\nf(1, _)\nf()\na.b\na?b\n(x) -> x\n() -> 1\n(*r) -> r\nif a then 1\nif a 1 else 2\nif a 1 elif b 2 else 3\n{\n 1\n}\n\"s\"\n(1)",
    );
    assert_eq!(stmts.len(), 14);
    let exprs: Vec<&Expr> = stmts
        .iter()
        .map(|s| match s {
            Stmt::Expression(e) => e,
            other => panic!("no expression: {:?}", other),
        })
        .collect();
    assert!(matches!(exprs[0], Expr::Call(_, args) if args.len() == 2));
    assert!(matches!(exprs[1], Expr::PartialCall(_, args) if args.len() == 2 && args[1].is_none()));
    assert!(matches!(exprs[2], Expr::Call(_, args) if args.is_empty()));
    assert!(matches!(exprs[3], Expr::PropertyAccess(_, _)));
    assert!(matches!(exprs[4], Expr::PropertyTest(_, _)));
    assert!(matches!(exprs[5], Expr::AnonFunction(args, None, _, _) if args.len() == 1));
    assert!(matches!(exprs[6], Expr::AnonFunction(args, None, _, _) if args.is_empty()));
    assert!(matches!(exprs[7], Expr::AnonFunction(args, Some(_), _, _) if args.is_empty()));
    assert!(matches!(exprs[8], Expr::If(_, _, None)));
    assert!(matches!(exprs[9], Expr::If(_, _, Some(_))));
    assert!(matches!(exprs[10], Expr::If(_, _, Some(other)) if matches!(**other, Expr::If(_, _, Some(_)))));
    assert!(matches!(exprs[11], Expr::Block(_, _, stmts) if stmts.len() == 1));
    assert!(matches!(exprs[12], Expr::ConstString(_)));
    assert!(matches!(exprs[13], Expr::Number(_)));
}

#[test]
fn tokens_that_are_no_program_are_refused() {
    for source in ["var", "1 +", "f(1", "def f(a b) = a", "x = ", ")", "impl S", "1 2"] {
        let tokens = tokenize(source).unwrap();
        let error = parse(&tokens).unwrap_err();
        assert!(error.location <= tokens.len(), "for {:?}", source);
    }
    let tokens = vec![Token { kind: TokenKind::Pass, position: Position { line: 1, column: 1 } }];
    assert!(parse(&tokens).is_err());
    assert!(parse(&vec![]).is_err());
}

#[test]
fn redefinition_check_names_both_places() {
    let ok = tree("var x = 1\n{\n var x = 2\n}\ndef f(x) = {\n var x = 3\n}");
    assert_eq!(NameRedefinitionChecker::check(&ok), Ok(()));
    let twice = tree("var x = 1\nvar y = 2\nvar x = 3");
    assert_eq!(
        NameRedefinitionChecker::check(&twice),
        Err("name x [3:5] is redefined in block, previous definition at [1:5]".to_string())
    );
    let function = tree("def f() = 1\nvar f = 2");
    assert_eq!(
        NameRedefinitionChecker::check(&function),
        Err("name f [2:5] is redefined in block, previous definition at [1:5]".to_string())
    );
    let first_wins = tree("{\n var a\n var a\n}\nvar b\nvar b");
    assert_eq!(
        NameRedefinitionChecker::check(&first_wins),
        Err("name a [3:6] is redefined in block, previous definition at [2:6]".to_string())
    );
    let vararg = tree("def f(a, *a) = 1");
    assert_eq!(
        NameRedefinitionChecker::check(&vararg),
        Err("argument a repeats in function f at [1:5]".to_string())
    );
}

#[test]
fn folding_replaces_constant_expressions_by_their_value() {
    match &statements("print 2 + 3 * 4")[0] {
        Stmt::Print(_, Expr::Binary(_, _, _)) => {}
        other => panic!("unexpected tree {:?}", other),
    }
    let folded = optimize(&tree("print 2 + 3 * 4\nprint 1 / 0\nprint not 0\nprint 2 < 3\nprint x + (1 + 1)"));
    let stmts = match folded {
        Expr::Block(_, _, stmts) => stmts,
        other => panic!("no block: {:?}", other),
    };
    let number = |s: &Stmt| match s {
        Stmt::Print(_, Expr::Number(token)) => match token.kind {
            TokenKind::Number(n) => Some(n),
            _ => None,
        },
        _ => None,
    };
    assert_eq!(number(&stmts[0]), Some(14));
    assert_eq!(number(&stmts[1]), None);
    assert!(matches!(&stmts[1], Stmt::Print(_, Expr::Binary(_, _, _))));
    assert_eq!(number(&stmts[2]), Some(1));
    assert_eq!(number(&stmts[3]), Some(1));
    match &stmts[4] {
        Stmt::Print(_, Expr::Binary(_, lhs, rhs)) => {
            assert!(matches!(**lhs, Expr::Name(_)));
            assert!(matches!(&**rhs, Expr::Number(token) if matches!(token.kind, TokenKind::Number(2))));
        }
        other => panic!("unexpected tree {:?}", other),
    }
}

#[test]
fn unused_constant_declarations_are_dropped() {
    let pruned = optimize(&tree("var unused = 1 + 2\nvar text = \"t\"\nvar used = 3\nvar called = f()\nvar bare\nprint used"));
    let stmts = match pruned {
        Expr::Block(_, _, stmts) => stmts,
        other => panic!("no block: {:?}", other),
    };
    assert_eq!(stmts.len(), 3);
    assert!(matches!(&stmts[0], Stmt::VarDeclaration(name, _) if name.get_string() == Some("used")));
    assert!(matches!(&stmts[1], Stmt::VarDeclaration(name, _) if name.get_string() == Some("called")));
    assert!(matches!(&stmts[2], Stmt::Print(_, _)));
}

#[test]
fn names_get_their_kinds() {
    let builtins = builtin_factory();
    let program = tree("var x = 1\ndef f(a) = {\n var y = a + x\n sum(y, nobody)\n}\nf(x)");
    let annotations = Resolver::resolve(&program, &builtins).unwrap();
    let kind_at = |line: u32, column: u32| {
        annotations
            .variables
            .iter()
            .find(|(p, _)| *p == Position { line, column })
            .map(|(_, k)| *k)
    };
    assert_eq!(kind_at(1, 5), Some(VariableKind::Local(1)));
    assert_eq!(kind_at(2, 5), Some(VariableKind::Local(2)));
    assert_eq!(kind_at(2, 7), Some(VariableKind::Local(1)));
    assert_eq!(kind_at(3, 6), Some(VariableKind::Local(2)));
    assert_eq!(kind_at(3, 10), Some(VariableKind::Local(1)));
    assert_eq!(kind_at(3, 14), Some(VariableKind::Closed(0)));
    assert_eq!(kind_at(4, 2), Some(VariableKind::Builtin(0)));
    assert_eq!(kind_at(4, 6), Some(VariableKind::Local(2)));
    assert_eq!(kind_at(4, 9), Some(VariableKind::Global));
    assert_eq!(kind_at(6, 1), Some(VariableKind::Local(2)));
    assert_eq!(kind_at(6, 3), Some(VariableKind::Local(1)));
    let info = |line: u32, column: u32| {
        annotations
            .functions
            .iter()
            .find(|(p, _)| *p == Position { line, column })
            .map(|(_, i)| i)
            .unwrap()
    };
    assert_eq!(
        info(2, 5).upvalues,
        vec![UpvalueDescriptor { slot: 1, from_enclosing_upvalues: false }]
    );
    assert!(info(2, 5).closed_names.is_empty());
    assert_eq!(info(1, 1).closed_names, vec!["x".to_string()]);
    assert!(info(1, 1).upvalues.is_empty());
    assert_eq!(annotations.blocks.len(), 2);
}

#[test]
fn captures_pass_through_every_function_between() {
    let builtins = builtin_factory();
    let program = tree("def outer(a) = () -> () -> a");
    let annotations = Resolver::resolve(&program, &builtins).unwrap();
    let upvalues: Vec<Vec<UpvalueDescriptor>> =
        annotations.functions.iter().map(|(_, i)| i.upvalues.clone()).collect();
    assert_eq!(
        upvalues,
        vec![
            vec![UpvalueDescriptor { slot: 0, from_enclosing_upvalues: true }],
            vec![UpvalueDescriptor { slot: 1, from_enclosing_upvalues: false }],
            vec![],
            vec![],
        ]
    );
    let closed: Vec<Vec<String>> =
        annotations.functions.iter().map(|(_, i)| i.closed_names.clone()).collect();
    assert_eq!(closed, vec![vec![], vec![], vec!["a".to_string()], vec![]]);
}

#[test]
fn repl_collects_lines_until_a_blank_one() {
    let mut repl = Repl::new();
    assert!(matches!(repl.feed("var x = 1\n"), ReplAction::Continue));
    assert!(matches!(repl.feed("print x\n"), ReplAction::Continue));
    match repl.feed("  \t\n") {
        ReplAction::Run(program) => assert_eq!(program, "\nvar x = 1\n\nprint x\n"),
        other => panic!("unexpected action {:?}", other),
    }
    match repl.feed("\n") {
        ReplAction::Run(program) => assert_eq!(program, ""),
        other => panic!("unexpected action {:?}", other),
    }
    assert!(matches!(repl.feed("exit"), ReplAction::Exit));
    assert!(matches!(repl.feed("  exit \r\n"), ReplAction::Exit));
    assert!(matches!(repl.feed("exit now\n"), ReplAction::Continue));
    assert!(matches!(repl.feed("\u{a0}\u{3000}\n"), ReplAction::Run(_)));
}

#[test]
fn builtin_errors_convert_and_read() {
    let other: BuiltinError = "boom".to_string().into();
    assert!(matches!(&other, BuiltinError::Other(text) if text == "boom"));
    assert_eq!(other.to_string(), "boom");
}
