use vstd::prelude::*;
use crate::compile::checks::name_definition_check::{walk_expr, NameRedefinitionChecker};
use crate::compile::checks::optimization::{names_of, optimize, optimizes_to};
use crate::compile::checks::resolution::{infos_model, walk_program, Annotations, Resolver};
use crate::execution::builtins::BuiltinMap;
use crate::parsing::ast::Expr;

pub mod name_definition_check;
pub mod optimization;
pub mod resolution;

verus! {

/// Whether `annotations` is the table that the analysis of `optimized`
/// comes to.
pub open spec fn annotates(annotations: Annotations, optimized: Expr, builtins: Seq<Seq<char>>) -> bool {
    walk_program(optimized, builtins) matches Ok(m) && annotations.variables@ == m.variables
        && infos_model(annotations.functions@) == m.infos && annotations.blocks@ == m.blocks
}

/// Checks and optimizes a program, and analyses its names. The passes run
/// in this order, and the first failure ends the work with its diagnostic:
/// no name may be declared twice in one scope; constant expressions are
/// folded and unused constant declarations dropped, which cannot fail;
/// every name of the optimized program gets its kind. The result is the
/// optimized program with the table of the analysis.
pub fn check_optimize(program: &Expr, builtins: &BuiltinMap) -> (result: Result<
    (Expr, Annotations),
    String,
>)
    requires
        builtins.wf(),
    ensures
        walk_expr(Seq::empty(), *program) matches Err(error) ==> result is Err && result->Err_0@
            == error.spec_to_string(),
        walk_expr(Seq::empty(), *program) is Ok ==> (match result {
            Ok((optimized, annotations)) => optimizes_to(*program, optimized, names_of(*program))
                && annotates(annotations, optimized, builtins.function_names()),
            Err(text) => exists|optimized: Expr| #[trigger]
                optimizes_to(*program, optimized, names_of(*program)) && walk_program(
                    optimized,
                    builtins.function_names(),
                ) is Err && text@ == walk_program(
                    optimized,
                    builtins.function_names(),
                )->Err_0.spec_to_string(),
        }),
{
    match NameRedefinitionChecker::check(program) {
        Ok(_) => {},
        Err(text) => {
            return Err(text);
        },
    }
    let optimized = optimize(program);
    match Resolver::resolve(&optimized, builtins) {
        Ok(annotations) => Ok((optimized, annotations)),
        Err(error) => {
            let text = error.to_string();
            Err(text)
        },
    }
}

} // verus!
