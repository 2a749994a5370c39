use minilang::data::gc::GC;
use minilang::data::objects::Value;
use minilang::execution::builtins::builtin_factory;
use minilang::execution::vm::VM;
use minilang::run_program;

fn run(source: &str) -> (Result<Value, String>, Vec<String>) {
    let builtins = builtin_factory();
    let mut vm = VM::new(GC::default_gc(), &builtins);
    let result = run_program(source.to_string(), &mut vm);
    (result, vm.output)
}

fn stdout(source: &str) -> Vec<String> {
    let (result, output) = run(source);
    assert!(result.is_ok(), "the program failed: {:?}", result);
    output
}

fn failure(source: &str) -> String {
    let (result, _) = run(source);
    match result {
        Ok(value) => panic!("the program ran to {:?}", value),
        Err(text) => text,
    }
}

fn lines(texts: &[&str]) -> Vec<String> {
    texts.iter().map(|t| t.to_string()).collect()
}

#[test]
fn write_inside_closure_is_seen_outside() {
    let source = "var count = 0\ndef bump() = {\n count = count + 1\n count\n}\nbump()\nbump()\nprint count";
    assert_eq!(stdout(source), lines(&["2"]));
}

#[test]
fn two_closures_share_one_captured_local() {
    let source = "var n = 1\ndef double() = {\n n = n * 2\n}\ndef read() = n\ndouble()\ndouble()\nprint read()";
    assert_eq!(stdout(source), lines(&["4"]));
}

#[test]
fn inner_declaration_shadows_until_its_block_ends() {
    let source = "var x = 1\nprint {\n var x = 2\n x\n}\nprint x";
    assert_eq!(stdout(source), lines(&["2", "1"]));
}

#[test]
fn name_resolves_to_innermost_of_three_scopes() {
    let source = "var x = 1\nprint {\n var x = 2\n {\n var x = 3\n x\n }\n}";
    assert_eq!(stdout(source), lines(&["3"]));
}

#[test]
fn exact_arity_rejects_other_argument_counts() {
    let text = failure("def two(a, b) = a + b\ntwo(1)");
    assert!(text.starts_with("error ArityMismatch: expected 2 args but got 1"), "{}", text);
    let text = failure("def two(a, b) = a + b\ntwo(1, 2, 3)");
    assert!(text.starts_with("error ArityMismatch: expected 2 args but got 3"), "{}", text);
}

#[test]
fn partial_application_in_steps_equals_all_at_once() {
    let source = "def three(a, b, c) = a * 100 + b * 10 + c\nvar p = three(_, _, _)\nprint p(1)(2)(3)\nprint p(1, 2)(3)\nprint p(1)(2, 3)\nprint p(1, 2, 3)";
    assert_eq!(stdout(source), lines(&["123", "123", "123", "123"]));
}

#[test]
fn partial_application_keeps_bound_arguments_in_place() {
    let source = "def sub(a, b) = a - b\nvar from_ten = sub(10, _)\nvar minus_ten = sub(_, 10)\nprint from_ten(3)\nprint minus_ten(3)";
    assert_eq!(stdout(source), lines(&["7", "-7"]));
}

#[test]
fn partial_application_with_too_many_arguments_is_an_arity_mismatch() {
    let text = failure("def add(a, b) = a + b\nvar inc = add(1, _)\ninc(1, 2)");
    assert!(text.starts_with("error ArityMismatch: expected 1 args but got 2"), "{}", text);
}

#[test]
fn arithmetic_operators_compute_on_integers() {
    let source = "var a = 17\nvar b = 5\nprint a + b\nprint a - b\nprint a * b\nprint a / b\nprint a % b\nprint 2 ** 10\nprint (0 - a) / b\nprint (0 - a) % b";
    assert_eq!(stdout(source), lines(&["22", "12", "85", "3", "2", "1024", "-3", "-2"]));
}

#[test]
fn power_is_right_associative() {
    assert_eq!(stdout("var two = 2\nprint two ** 3 ** 2"), lines(&["512"]));
}

#[test]
fn comparisons_give_one_or_zero() {
    let source = "var a = 3\nprint a == 3\nprint a != 3\nprint a < 4\nprint a <= 2\nprint a > 2\nprint a >= 4";
    assert_eq!(stdout(source), lines(&["1", "0", "1", "0", "1", "0"]));
}

#[test]
fn and_or_skip_the_right_operand_when_the_left_decides() {
    let source = "var zero = 0\nvar one = 1\nprint zero and (1 / zero)\nprint one or (1 / zero)\nprint one and 5\nprint zero or 0\nprint not zero\nprint not one";
    assert_eq!(stdout(source), lines(&["0", "1", "1", "0", "1", "0"]));
}

#[test]
fn division_by_zero_fails() {
    let text = failure("var zero = 0\nprint 1 / zero");
    assert!(text.starts_with("error DivisionByZero at instruction Div"), "{}", text);
    assert!(text.ends_with("at line 2"), "{}", text);
    let text = failure("var zero = 0\nprint 1 % zero");
    assert!(text.starts_with("error DivisionByZero at instruction Mod"), "{}", text);
}

#[test]
fn adding_a_string_is_a_type_error() {
    let text = failure("var s = \"a\"\nprint s + 1");
    assert!(text.starts_with("error RuntimeTypeError at instruction Add"), "{}", text);
}

#[test]
fn failed_assertion_stops_the_program() {
    let (result, output) = run("print 1\nassert 1 == 2\nprint 2");
    assert!(result.unwrap_err().starts_with("error AssertionFailed"));
    assert_eq!(output, lines(&["1"]));
}

#[test]
fn unknown_global_fails_when_it_is_read() {
    let text = failure("print nobody");
    assert!(text.starts_with("error UnknownGlobal"), "{}", text);
}

#[test]
fn unknown_property_fails() {
    let text = failure("struct P: { x }\nvar p = P(1)\nprint p.y");
    assert!(text.starts_with("error UnknownProperty"), "{}", text);
}

#[test]
fn calling_an_integer_is_a_type_error() {
    let text = failure("var n = 3\nn(1)");
    assert!(text.starts_with("error RuntimeTypeError at instruction Call[1]"), "{}", text);
}

#[test]
fn if_without_else_gives_nothing() {
    let source = "var zero = 0\nprint if zero then 1";
    assert_eq!(stdout(source), lines(&["<Nothing>"]));
}

#[test]
fn elif_chain_picks_the_first_true_branch() {
    let source = "def sign(n) = if n < 0 then 0 - 1 elif n == 0 then 0 else 1\nprint sign(0 - 5)\nprint sign(0)\nprint sign(9)";
    assert_eq!(stdout(source), lines(&["-1", "0", "1"]));
}

#[test]
fn block_value_is_its_last_expression() {
    let source = "var v = {\n var a = 2\n var b = 3\n a * b\n}\nprint v";
    assert_eq!(stdout(source), lines(&["6"]));
}

#[test]
fn struct_fields_can_be_assigned_and_tested() {
    let source = "struct Point: {\n x\n y\n}\nvar p = Point(1, 2)\np.x = 10\nprint p.x + p.y\nprint p?x\nprint p?z";
    assert_eq!(stdout(source), lines(&["12", "1", "0"]));
}

#[test]
fn struct_constructor_checks_the_number_of_fields() {
    let text = failure("struct Point: { x, y }\nPoint(1)");
    assert!(text.starts_with("error ArityMismatch: expected 2 args but got 1"), "{}", text);
}

#[test]
fn impl_block_adds_methods_bound_to_the_instance() {
    let source = "struct Point: { x, y }\nimpl Point: {\n def sum(self) = self.x + self.y\n def scaled(self, k) = (self.x + self.y) * k\n}\nvar p = Point(3, 4)\nprint p.sum()\nprint p.scaled(10)";
    assert_eq!(stdout(source), lines(&["7", "70"]));
}

#[test]
fn enum_variants_construct_instances() {
    let source = "enum Shape: {\n Circle: { r }\n Square: { side }\n Empty\n}\nvar c = Shape.Circle(2)\nvar s = Shape.Square(3)\nprint c.r\nprint s.side\nprint c?r\nprint c?side";
    assert_eq!(stdout(source), lines(&["2", "3", "1", "0"]));
}

#[test]
fn builtin_functions_are_found_by_name() {
    let source = "print sum(1, 2, 3)\nprint sum()\nprint int(\"42\") + 1\nprint int(\"-7\")\nprint arity(sum)\nprint is_vararg(sum)\nprint is_vararg(int)\nprint arity(int)";
    assert_eq!(stdout(source), lines(&["6", "0", "43", "-7", "0", "1", "0", "1"]));
}

#[test]
fn builtin_failures_carry_their_text() {
    let text = failure("int(\"12x\")");
    assert!(text.starts_with("error BuiltinFailed: failed to parse 12x"), "{}", text);
    let text = failure("int(5)");
    assert!(text.starts_with("error BuiltinFailed: expected string-like in int"), "{}", text);
    let text = failure("sum(1, \"a\", 3)");
    assert!(
        text.starts_with("error BuiltinFailed: expected all args of type int, got 1 arg of String"),
        "{}",
        text
    );
    let text = failure("arity(3)");
    assert!(text.starts_with("error BuiltinFailed: expected callable, got Int"), "{}", text);
    let text = failure("int()");
    assert!(text.starts_with("error ArityMismatch: expected 1 args but got 0"), "{}", text);
}

#[test]
fn builtin_methods_of_integers() {
    let source = "var n = 0 - 17\nprint n.abs()\nprint n._mod(5)\nvar m = n.abs\nprint m()";
    assert_eq!(stdout(source), lines(&["17", "-2", "17"]));
    let text = failure("var n = 3\nn._mod(0)");
    assert!(text.starts_with("error BuiltinFailed: division by zero"), "{}", text);
}

#[test]
fn vararg_function_gets_surplus_arguments_as_a_list() {
    let source = "def first(a, *rest) = a\ndef rest_of(a, *rest) = rest\nprint first(1, 2, 3)\nprint sum(rest_of(1, 2, 3))\nprint arity(first)\nprint is_vararg(first)";
    let (result, output) = run(source);
    assert_eq!(output, lines(&["1"]));
    let text = result.unwrap_err();
    assert!(
        text.starts_with("error BuiltinFailed: expected all args of type int, got 0 arg of List"),
        "{}",
        text
    );
    assert_eq!(stdout("def count(*all) = arity(count)\nprint count(1, 2)\nprint is_vararg(count)"), lines(&["0", "1"]));
}

#[test]
fn arity_of_user_functions_and_partials() {
    let source = "def three(a, b, c) = a\nprint arity(three)\nprint arity(three(1, _, _))\nprint is_vararg(three)";
    assert_eq!(stdout(source), lines(&["3", "2", "0"]));
}

#[test]
fn anonymous_functions_capture_and_apply() {
    let source = "def adder(n) = (x) -> x + n\nvar add5 = adder(5)\nprint add5(10)\nprint ((a, b) -> a * b)(6, 7)";
    assert_eq!(stdout(source), lines(&["15", "42"]));
}

#[test]
fn nested_closures_carry_captures_through_every_function() {
    let source = "def outer(a) = () -> () -> a + 1\nprint outer(41)()()";
    assert_eq!(stdout(source), lines(&["42"]));
}

#[test]
fn strings_print_their_text() {
    assert_eq!(stdout("print \"hello world\""), lines(&["hello world"]));
}

#[test]
fn constant_folding_keeps_runtime_failures() {
    let text = failure("print 1 / 0");
    assert!(text.starts_with("error DivisionByZero"), "{}", text);
    assert_eq!(stdout("print (2 + 3) * (10 - 4) == 30"), lines(&["1"]));
}

#[test]
fn large_literals_go_through_the_constants() {
    assert_eq!(stdout("print 100000 * 100000"), lines(&["10000000000"]));
    assert_eq!(stdout("var big = 9223372036854775807\nprint big + 1"), lines(&["-9223372036854775808"]));
}

#[test]
fn redefinition_in_one_scope_is_refused() {
    let text = failure("var x = 1\nvar x = 2");
    assert_eq!(text, "name x [2:5] is redefined in block, previous definition at [1:5]");
}

#[test]
fn repeated_parameter_is_refused() {
    let text = failure("def f(a, a) = a");
    assert_eq!(text, "argument a repeats in function f at [1:5]");
    let text = failure("var g = (a, b, a) -> a");
    assert_eq!(text, "argument a repeats in anonymous function at [1:19]");
}

#[test]
fn assignment_to_builtin_or_undeclared_name_is_refused() {
    let text = failure("sum = 3");
    assert_eq!(text, "cannot assign to builtin sum at [1:1]");
    let text = failure("nobody = 3");
    assert_eq!(text, "cannot assign to undefined name nobody at [1:1]");
}

#[test]
fn lexical_errors_name_their_place() {
    assert_eq!(failure("var x = 1\nvar y = @"), "unexpected character at [2:9]");
    assert_eq!(failure("print \"abc"), "unterminated string at [1:7]");
    assert_eq!(failure("print 99999999999999999999"), "number too large at [1:7]");
}

#[test]
fn syntax_errors_name_a_token() {
    let text = failure("var = 3");
    assert!(text.starts_with("unexpected token at [1:"), "{}", text);
    let text = failure("print (1 + 2");
    assert!(text.starts_with("unexpected"), "{}", text);
}

#[test]
fn machine_can_run_one_program_after_another() {
    let builtins = builtin_factory();
    let mut vm = VM::new(GC::default_gc(), &builtins);
    assert_eq!(run_program("struct P: { x }\nprint 1".to_string(), &mut vm), Ok(Value::Nothing));
    assert!(run_program("print 1 / (1 - 1)".to_string(), &mut vm).is_err());
    assert_eq!(run_program("var p = P(5)\np.x".to_string(), &mut vm), Ok(Value::Int(5)));
    assert_eq!(vm.output, vec!["1".to_string()]);
    assert!(vm.stack.is_empty());
    assert!(vm.frames.is_empty());
}

#[test]
fn many_allocations_survive_collections() {
    let source = "def build(n, acc) = if n == 0 then acc else build(n - 1, (x) -> acc(x) + 1)\nvar f = build(40, (x) -> x)\nprint f(2)";
    let builtins = builtin_factory();
    let mut gc = GC::default_gc();
    gc.threshold = 3;
    let mut vm = VM::new(gc, &builtins);
    assert_eq!(run_program(source.to_string(), &mut vm), Ok(Value::Nothing));
    assert_eq!(vm.output, vec!["42".to_string()]);
}
