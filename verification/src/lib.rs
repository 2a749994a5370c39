use vstd::prelude::*;
use crate::compile::checks::name_definition_check::walk_expr;
use crate::compile::checks::optimization::{names_of, optimizes_to};
use crate::compile::checks::resolution::walk_program;
use crate::compile::checks::check_optimize;
use crate::compile::compiler::Compiler;
use crate::compile::emission::{
    expr_constants, function_code, linked, program_function, CompileError, Emission, FunctionAst,
    Table,
};
use crate::data::gc::GC;
use crate::data::objects::Value;
use crate::execution::builtins::builtin_factory;
use crate::execution::vm::{RuntimeError, VM};
use crate::parsing::ast::{Expr, Program};
use crate::parsing::grammar::{expr_model, program_at};
use crate::parsing::lexer::{Position, Token};
use crate::parsing::parser::parse;
use crate::parsing::scanner::{program_tokens, shapes, tokenize, LexError, Shape};
use crate::text::{join2, normalize_string, normalized};
use vstd::string::StringExecFns;

pub mod compile;
pub mod data;
pub mod execution;
pub mod parsing;
pub mod repl;
pub mod text;

verus! {

/// The names of the native functions, in the order of their indices.
pub open spec fn builtin_names() -> Seq<Seq<char>> {
    seq!["sum"@, "int"@, "list"@, "arity"@, "is_vararg"@]
}

/// Whether `entry` is, on the heap `gc`, the compilation of `program`: the
/// function of the optimized program, compiled with the table that the
/// analysis of the optimized program comes to, together with every
/// function inside it.
pub open spec fn is_compiled_program(program: Expr, gc: &GC, entry: Value) -> bool {
    exists|optimized: Expr, table: Table, compiled: Map<usize, FunctionAst>|
        {
            &&& #[trigger] optimizes_to(program, optimized, names_of(program))
            &&& walk_program(optimized, builtin_names()) matches Ok(m) && table == (Table {
                variables: m.variables,
                infos: m.infos,
                blocks: m.blocks,
            })
            &&& #[trigger] linked(gc, table, compiled)
            &&& entry matches Value::Function(h) && compiled.contains_key(h) && compiled[h]
                == program_function(optimized)
        }
}

/// Whether `text` is the diagnostic for the optimized program `optimized`,
/// which passed the check of its declarations: that of the analysis of its
/// names where the analysis fails, and else that of the compiler, which
/// fails as the instructions of the program do, or for want of room among
/// the constants of a function, which only a program with more literals,
/// names and declarations than an instruction can name runs out of.
pub open spec fn is_failure_text(optimized: Expr, text: Seq<char>) -> bool {
    match walk_program(optimized, builtin_names()) {
        Err(error) => text == error.spec_to_string(),
        Ok(m) => exists|error: CompileError| #[trigger]
            error.spec_to_string() == text && ((error.kind is TooManyConstants && expr_constants(
                optimized,
            ) > u16::MAX) || function_code(
                program_function(optimized),
                Table { variables: m.variables, infos: m.infos, blocks: m.blocks },
            ) == Err::<Seq<Emission>, CompileError>(error)),
    }
}

/// Whether the optimized program `optimized` compiles: the analysis of
/// its names succeeds, its instructions stay within the limits of the
/// instruction set, and it holds no more literals, names and declarations
/// than an instruction can name.
pub open spec fn compiles(optimized: Expr) -> bool {
    walk_program(optimized, builtin_names()) matches Ok(m) && function_code(
        program_function(optimized),
        Table { variables: m.variables, infos: m.infos, blocks: m.blocks },
    ) is Ok && expr_constants(optimized) <= u16::MAX
}

/// Whether the tree of a program compiles: it passes the check of its
/// declarations, and its optimized form compiles.
pub open spec fn tree_compiles(tree: Expr) -> bool {
    walk_expr(Seq::empty(), tree) is Ok && forall|optimized: Expr| #[trigger]
        optimizes_to(tree, optimized, names_of(tree)) ==> compiles(optimized)
}

/// Whether the text of a program compiles: it is tokens, the tokens are
/// a tree, and the tree compiles.
pub open spec fn source_compiles(source: Seq<char>) -> bool {
    program_tokens(normalized(source)) is Ok && forall|tokens: Seq<Token>, tree: Expr|
        program_tokens(normalized(source)) == Ok::<Seq<(Shape, Position)>, LexError>(
            #[trigger] shapes(tokens),
        ) ==> program_at(tokens) is Some && (program_at(tokens) == Some(
            #[trigger] expr_model(tree),
        ) ==> tree_compiles(tree))
}

/// Compiles the tree of a program to the function value that runs it. The
/// program is checked, optimized and analysed against the registry of
/// builtins, and then compiled onto the heap. A program that declares a
/// name twice in one scope is refused with the diagnostic of the check.
/// A tree that compiles gives its function; any other gives a diagnostic.
/// The objects that the heap held before are left as they were.
pub fn compile_tree(program: &Program, gc: &mut GC) -> (result: Result<Value, String>)
    requires
        old(gc).wf(),
    ensures
        final(gc).wf(),
        old(gc).preserved_in(final(gc)),
        walk_expr(Seq::empty(), *program) matches Err(error) ==> result is Err && result->Err_0@
            == error.spec_to_string(),
        tree_compiles(*program) ==> result is Ok,
        result matches Ok(entry) ==> is_compiled_program(*program, final(gc), entry),
        result matches Err(text) ==> walk_expr(Seq::empty(), *program) is Err || exists|
            optimized: Expr,
        | #[trigger]
            optimizes_to(*program, optimized, names_of(*program)) && is_failure_text(
                optimized,
                text@,
            ),
{
    let builtins = builtin_factory();
    proof {
        assert(builtins.function_names() =~= builtin_names());
    }
    let (optimized, annotations) = match check_optimize(program, &builtins) {
        Ok(checked) => checked,
        Err(text) => {
            proof {
                if walk_expr(Seq::empty(), *program) is Ok {
                    let optimized = choose|optimized: Expr| #[trigger]
                        optimizes_to(*program, optimized, names_of(*program)) && walk_program(
                            optimized,
                            builtins.function_names(),
                        ) is Err && text@ == walk_program(
                            optimized,
                            builtins.function_names(),
                        )->Err_0.spec_to_string();
                    assert(is_failure_text(optimized, text@));
                }
            }
            return Err(text);
        },
    };
    match Compiler::compile(&optimized, &annotations, gc) {
        Ok(entry) => {
            proof {
                let table = annotations.model();
                let compiled = choose|compiled: Map<usize, FunctionAst>| #[trigger]
                    linked(gc, table, compiled) && (entry matches Value::Function(h)
                        && compiled.contains_key(h) && compiled[h] == program_function(optimized));
                assert(optimizes_to(*program, optimized, names_of(*program)));
                assert(linked(gc, table, compiled));
            }
            Ok(entry)
        },
        Err(error) => {
            let text = error.to_string();
            proof {
                assert(is_failure_text(optimized, text@));
            }
            Err(text)
        },
    }
}

/// Whether `entry` is, on the heap `gc`, the compilation of the program
/// with the text `source`: the text with its line endings normalized is
/// tokens, the tokens are a tree, and `entry` is the compilation of the tree.
pub open spec fn is_compiled_source(source: Seq<char>, gc: &GC, entry: Value) -> bool {
    exists|tokens: Seq<Token>, tree: Expr|
        {
            &&& program_tokens(normalized(source)) == Ok::<Seq<(Shape, Position)>, LexError>(
                #[trigger] shapes(tokens),
            )
            &&& program_at(tokens) == Some(#[trigger] expr_model(tree))
            &&& is_compiled_program(tree, gc, entry)
        }
}

/// The message for tokens that are no program: the place of the token
/// where the grammar could not go on, or the end of the text.
pub open spec fn parse_error_text(tokens: Seq<Token>, location: usize) -> Seq<char> {
    if location < tokens.len() {
        "unexpected token at ["@ + tokens[location as int].position.spec_to_string() + "]"@
    } else {
        "unexpected end of input"@
    }
}

/// Whether `text` is the diagnostic for the tree of a program that does
/// not compile: that of the check of its declarations, or that for its
/// optimized form.
pub open spec fn is_tree_failure(tree: Expr, text: Seq<char>) -> bool {
    match walk_expr(Seq::empty(), tree) {
        Err(error) => text == error.spec_to_string(),
        Ok(_) => exists|optimized: Expr| #[trigger]
            optimizes_to(tree, optimized, names_of(tree)) && is_failure_text(optimized, text),
    }
}

/// Whether `text` is the diagnostic for tokens that do not compile: that
/// for a place among the tokens where they are no program, and else that
/// for their tree.
pub open spec fn is_source_failure(tokens: Seq<Token>, text: Seq<char>) -> bool {
    match program_at(tokens) {
        None => exists|location: usize| #[trigger]
            parse_error_text(tokens, location) == text && location <= tokens.len(),
        Some(model) => exists|tree: Expr| #[trigger]
            expr_model(tree) == model && is_tree_failure(tree, text),
    }
}

/// Writes the message for tokens that are no program.
pub fn parse_error_message(tokens: &Vec<Token>, location: usize) -> (text: String)
    ensures
        text@ == parse_error_text(tokens@, location),
{
    if location < tokens.len() {
        let mut text = join2(
            "unexpected token at [",
            tokens[location].position.to_string().as_str(),
        );
        text.append("]");
        text
    } else {
        String::from_str("unexpected end of input")
    }
}

/// Compiles the text of a program to the function value that runs it.
/// The line endings of the text are normalized, the text is read as
/// tokens, the tokens are parsed, and the tree is compiled as
/// [`compile_tree`] does. The first of these that fails ends the work with
/// its diagnostic. The objects that the heap held before are left as they
/// were.
pub fn compile_program(program: String, gc: &mut GC) -> (result: Result<Value, String>)
    requires
        old(gc).wf(),
    ensures
        final(gc).wf(),
        old(gc).preserved_in(final(gc)),
        program_tokens(normalized(program@)) matches Err(error) ==> result is Err && result->Err_0@
            == error.spec_to_string(),
        source_compiles(program@) ==> result is Ok,
        result matches Ok(entry) ==> is_compiled_source(program@, final(gc), entry),
        result matches Err(text) ==> program_tokens(normalized(program@)) is Err || exists|
            tokens: Seq<Token>,
        |
            program_tokens(normalized(program@)) == Ok::<Seq<(Shape, Position)>, LexError>(
                #[trigger] shapes(tokens),
            ) && is_source_failure(tokens, text@),
{
    let ghost source = program@;
    let text = normalize_string(program);
    let tokens = match tokenize(text.as_str()) {
        Ok(tokens) => tokens,
        Err(message) => {
            return Err(message);
        },
    };
    let tree = match parse(&tokens) {
        Ok(tree) => tree,
        Err(error) => {
            let message = parse_error_message(&tokens, error.location);
            proof {
                assert(is_source_failure(tokens@, message@));
                assert(program_tokens(normalized(source)) == Ok::<
                    Seq<(Shape, Position)>,
                    LexError,
                >(shapes(tokens@)));
            }
            return Err(message);
        },
    };
    match compile_tree(&tree, gc) {
        Ok(entry) => {
            proof {
                assert(program_at(tokens@) == Some(expr_model(tree)));
                assert(is_compiled_program(tree, gc, entry));
            }
            Ok(entry)
        },
        Err(message) => {
            proof {
                assert(is_tree_failure(tree, message@));
                assert(is_source_failure(tokens@, message@));
                assert(program_tokens(normalized(source)) == Ok::<
                    Seq<(Shape, Position)>,
                    LexError,
                >(shapes(tokens@)));
            }
            Err(message)
        },
    }
}

/// Whether `after` and `result` are what compiling and running the
/// program with the text `source` makes of the idle machine `before`: the
/// program is compiled onto the machine's heap and run from its function.
/// A failure at run time is reported with its message.
pub open spec fn ran_program(
    before: &VM,
    after: &VM,
    source: Seq<char>,
    result: Result<Value, String>,
) -> bool {
    exists|compiled: VM, entry: Value, outcome: Result<Value, RuntimeError>|
        {
            &&& #[trigger] is_compiled_source(source, &compiled.gc, entry)
            &&& before.gc.preserved_in(&compiled.gc)
            &&& compiled.builtins == before.builtins
            &&& compiled.stack == before.stack
            &&& compiled.frames == before.frames
            &&& compiled.globals == before.globals
            &&& compiled.output == before.output
            &&& compiled.stack_limit == before.stack_limit
            &&& #[trigger] after.ran_from(&compiled, entry, outcome)
            &&& match outcome {
                Ok(value) => result == Ok::<Value, String>(value),
                Err(error) => result is Err && result->Err_0@ == error.spec_describe(&after.gc),
            }
        }
}

/// Compiles the text of a program onto the heap of an idle machine and
/// runs it there. What the program prints is added to the machine's
/// output. The result is the value of the program, the diagnostic of the
/// compiler, or the message of the failure at run time.
pub fn run_program(program: String, vm: &mut VM) -> (result: Result<Value, String>)
    requires
        old(vm).wf(),
        old(vm).frames@.len() == 0,
    ensures
        final(vm).wf(),
        final(vm).frames@.len() == 0,
        program_tokens(normalized(program@)) matches Err(error) ==> result is Err && result->Err_0@
            == error.spec_to_string(),
        result is Ok || source_compiles(program@) ==> ran_program(
            old(vm),
            final(vm),
            program@,
            result,
        ),
        result is Err ==> ran_program(old(vm), final(vm), program@, result) || (old(
            vm,
        ).gc.preserved_in(&final(vm).gc) && final(vm).only_stack_and_heap_changed(old(vm))
            && final(vm).stack == old(vm).stack),
{
    let entry = match compile_program(program, &mut vm.gc) {
        Ok(entry) => entry,
        Err(message) => {
            return Err(message);
        },
    };
    let ghost compiled = *vm;
    match vm.run(entry) {
        Ok(value) => {
            proof {
                assert(vm.ran_from(&compiled, entry, Ok(value)));
                assert(is_compiled_source(program@, &compiled.gc, entry));
            }
            Ok(value)
        },
        Err(error) => {
            let text = error.describe(&vm.gc);
            proof {
                assert(vm.ran_from(&compiled, entry, Err(error)));
                assert(is_compiled_source(program@, &compiled.gc, entry));
            }
            Err(text)
        },
    }
}

} // verus!
