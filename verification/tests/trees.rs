use minilang::compile_tree;
use minilang::data::gc::GC;
use minilang::data::objects::Value;
use minilang::execution::builtins::builtin_factory;
use minilang::execution::vm::{RuntimeError, RuntimeErrorKind, VM};
use minilang::parsing::ast::{Expr, Stmt};
use minilang::parsing::lexer::{Position, Token, TokenKind};

struct Source {
    next: u32,
}

impl Source {
    fn new() -> Source {
        Source { next: 0 }
    }

    fn tok(&mut self, kind: TokenKind) -> Token {
        self.next += 1;
        Token { kind, position: Position { line: 1 + self.next / 40, column: 1 + self.next % 40 } }
    }

    fn name(&mut self, text: &str) -> Token {
        self.tok(TokenKind::Name(text.to_string()))
    }

    fn num(&mut self, n: i64) -> Expr {
        Expr::Number(self.tok(TokenKind::Number(n)))
    }

    fn var(&mut self, text: &str) -> Expr {
        Expr::Name(self.name(text))
    }

    fn binary(&mut self, kind: TokenKind, lhs: Expr, rhs: Expr) -> Expr {
        Expr::Binary(self.tok(kind), Box::new(lhs), Box::new(rhs))
    }

    fn call(&mut self, callee: Expr, args: Vec<Expr>) -> Expr {
        Expr::Call(Box::new(callee), args)
    }

    fn block(&mut self, stmts: Vec<Stmt>) -> Expr {
        let begin = self.tok(TokenKind::BeginBlock);
        let end = self.tok(TokenKind::EndBlock);
        Expr::Block(begin, end, stmts)
    }

    fn print(&mut self, e: Expr) -> Stmt {
        Stmt::Print(self.tok(TokenKind::Print), e)
    }

    fn declare(&mut self, text: &str, e: Expr) -> Stmt {
        Stmt::VarDeclaration(self.name(text), Some(e))
    }

    fn def(&mut self, text: &str, params: &[&str], body: Expr) -> Stmt {
        let name = self.name(text);
        let args = params.iter().map(|p| self.name(p)).collect();
        Stmt::FunctionDeclaration { name, args, vararg: None, body }
    }
}

fn run(program: &Expr) -> (Result<Value, RuntimeError>, Vec<String>) {
    let mut gc = GC::default_gc();
    let entry = match compile_tree(program, &mut gc) {
        Ok(entry) => entry,
        Err(text) => panic!("the program does not compile: {}", text),
    };
    let builtins = builtin_factory();
    let mut vm = VM::new(gc, &builtins);
    let result = vm.run(entry);
    let output = vm.output;
    (result, output)
}

fn lines(program: &Expr) -> Vec<String> {
    let (result, output) = run(program);
    assert!(result.is_ok(), "the program failed: {:?}", result);
    output
}

#[test]
fn tree_prints_arithmetic_with_precedence() {
    let mut s = Source::new();
    let two = s.num(2);
    let three = s.num(3);
    let four = s.num(4);
    let product = s.binary(TokenKind::Star, three, four);
    let sum = s.binary(TokenKind::Plus, two, product);
    let stmt = s.print(sum);
    let program = s.block(vec![stmt]);
    assert_eq!(lines(&program), vec!["14".to_string()]);
}

#[test]
fn tree_function_reads_variable_of_enclosing_scope() {
    let mut s = Source::new();
    let ten = s.num(10);
    let declare_x = s.declare("x", ten);
    let x = s.var("x");
    let one = s.num(1);
    let body = s.binary(TokenKind::Plus, x, one);
    let def_f = s.def("f", &[], body);
    let f = s.var("f");
    let call = s.call(f, vec![]);
    let print = s.print(call);
    let program = s.block(vec![declare_x, def_f, print]);
    assert_eq!(lines(&program), vec!["11".to_string()]);
}

#[test]
fn tree_closures_keep_their_own_captured_argument() {
    let mut s = Source::new();
    let n = s.var("n");
    let arrow = s.tok(TokenKind::Arrow);
    let inner = Expr::AnonFunction(vec![], None, arrow, Box::new(n));
    let def_mk = s.def("mk", &["n"], inner);
    let mk1 = s.var("mk");
    let seven = s.num(7);
    let a_value = s.call(mk1, vec![seven]);
    let declare_a = s.declare("a", a_value);
    let mk2 = s.var("mk");
    let nine = s.num(9);
    let b_value = s.call(mk2, vec![nine]);
    let declare_b = s.declare("b", b_value);
    let a = s.var("a");
    let call_a = s.call(a, vec![]);
    let b = s.var("b");
    let call_b = s.call(b, vec![]);
    let sum = s.binary(TokenKind::Plus, call_a, call_b);
    let print = s.print(sum);
    let program = s.block(vec![def_mk, declare_a, declare_b, print]);
    assert_eq!(lines(&program), vec!["16".to_string()]);
}

#[test]
fn tree_partial_application_fills_the_hole() {
    let mut s = Source::new();
    let a = s.var("a");
    let b = s.var("b");
    let body = s.binary(TokenKind::Plus, a, b);
    let def_add = s.def("add", &["a", "b"], body);
    let add = s.var("add");
    let one = s.num(1);
    let partial = Expr::PartialCall(Box::new(add), vec![Some(one), None]);
    let declare_inc = s.declare("inc", partial);
    let inc = s.var("inc");
    let forty_one = s.num(41);
    let call = s.call(inc, vec![forty_one]);
    let print = s.print(call);
    let program = s.block(vec![def_add, declare_inc, print]);
    assert_eq!(lines(&program), vec!["42".to_string()]);
}

#[test]
fn tree_struct_fields_are_read_by_name() {
    let mut s = Source::new();
    let name = s.name("Point");
    let fields = vec![s.name("x"), s.name("y")];
    let declare_point = Stmt::StructDeclaration { name, fields };
    let point = s.var("Point");
    let three = s.num(3);
    let four = s.num(4);
    let instance = s.call(point, vec![three, four]);
    let declare_p = s.declare("p", instance);
    let first_p = s.var("p");
    let x = s.name("x");
    let px = Expr::PropertyAccess(Box::new(first_p), x);
    let second_p = s.var("p");
    let y = s.name("y");
    let py = Expr::PropertyAccess(Box::new(second_p), y);
    let sum = s.binary(TokenKind::Plus, px, py);
    let print = s.print(sum);
    let program = s.block(vec![declare_point, declare_p, print]);
    assert_eq!(lines(&program), vec!["7".to_string()]);
}

#[test]
fn tree_deep_recursion_ends_or_overflows_the_stack() {
    let mut s = Source::new();
    let n1 = s.var("n");
    let zero = s.num(0);
    let condition = s.binary(TokenKind::CompareEquals, n1, zero);
    let result = s.num(0);
    let f = s.var("f");
    let n2 = s.var("n");
    let one = s.num(1);
    let less = s.binary(TokenKind::Minus, n2, one);
    let recurse = s.call(f, vec![less]);
    let body = Expr::If(Box::new(condition), Box::new(result), Some(Box::new(recurse)));
    let def_f = s.def("f", &["n"], body);
    let f2 = s.var("f");
    let many = s.num(10000);
    let call = s.call(f2, vec![many]);
    let program = s.block(vec![def_f, Stmt::Expression(call)]);
    let (result, _) = run(&program);
    match result {
        Ok(value) => assert_eq!(value, Value::Int(0)),
        Err(error) => assert!(matches!(error.kind, RuntimeErrorKind::StackOverflow)),
    }
}

#[test]
fn tree_shallow_recursion_returns_its_value() {
    let mut s = Source::new();
    let n1 = s.var("n");
    let zero = s.num(0);
    let condition = s.binary(TokenKind::CompareEquals, n1, zero);
    let result = s.num(0);
    let f = s.var("f");
    let n2 = s.var("n");
    let one = s.num(1);
    let less = s.binary(TokenKind::Minus, n2, one);
    let recurse = s.call(f, vec![less]);
    let body = Expr::If(Box::new(condition), Box::new(result), Some(Box::new(recurse)));
    let def_f = s.def("f", &["n"], body);
    let f2 = s.var("f");
    let few = s.num(20);
    let call = s.call(f2, vec![few]);
    let program = s.block(vec![def_f, Stmt::Expression(call)]);
    let (result, _) = run(&program);
    assert_eq!(result.ok(), Some(Value::Int(0)));
}
