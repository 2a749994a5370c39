use minilang::data::gc::GC;
use minilang::data::objects::Value;
use minilang::execution::builtins::builtin_factory;
use minilang::execution::vm::VM;
use minilang::run_program;

fn run(source: &str) -> (Result<Value, String>, Vec<String>) {
    let builtins = builtin_factory();
    let mut vm = VM::new(GC::default_gc(), &builtins);
    let result = run_program(source.to_string(), &mut vm);
    (result, vm.output)
}

fn stdout(source: &str) -> Vec<String> {
    let (result, output) = run(source);
    assert!(result.is_ok(), "the program failed: {:?}", result);
    output
}

#[test]
fn prints_arithmetic_with_precedence() {
    assert_eq!(stdout("print 2 + 3 * 4"), vec!["14".to_string()]);
}

#[test]
fn function_reads_variable_of_enclosing_scope() {
    assert_eq!(stdout("var x = 10\n def f() = x + 1\n print f()"), vec!["11".to_string()]);
}

#[test]
fn closures_keep_their_own_captured_argument() {
    assert_eq!(
        stdout("def mk(n) = () -> n\n var a = mk(7)\n var b = mk(9)\n print a() + b()"),
        vec!["16".to_string()]
    );
}

#[test]
fn partial_application_fills_the_hole() {
    assert_eq!(
        stdout("def add(a,b) = a + b\n var inc = add(1, _)\n print inc(41)"),
        vec!["42".to_string()]
    );
}

#[test]
fn struct_fields_are_read_by_name() {
    assert_eq!(
        stdout("struct Point: { x, y }\n var p = Point(3,4)\n print p.x + p.y"),
        vec!["7".to_string()]
    );
}

#[test]
fn deep_recursion_ends_or_overflows_the_stack() {
    let (result, _) = run("def f(n) = if n == 0 then 0 else f(n-1)\n f(10000)");
    match result {
        Ok(value) => assert_eq!(value, Value::Int(0)),
        Err(text) => assert!(text.starts_with("error StackOverflow"), "{}", text),
    }
}

#[test]
fn shallow_recursion_runs_to_completion() {
    let (result, _) = run("def f(n) = if n == 0 then 0 else f(n-1)\n f(20)");
    assert_eq!(result, Ok(Value::Int(0)));
}
