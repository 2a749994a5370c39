use vstd::prelude::*;
use crate::compile::checks::name_definition_check::all_params;
use crate::compile::checks::optimization::spec_operator_opcode;
use crate::compile::checks::resolution::{has_name, infos_model, Annotations, FunctionInfoModel, VariableKind};
use crate::data::gc::GC;
use crate::data::objects::{OwnedObjectItem, Value};
use crate::execution::chunk::Chunk;
use crate::execution::properties::texts;
use crate::execution::arity::Arity;
use crate::execution::chunk::{Opcode, UpvalueDescriptor};
use crate::parsing::ast::{EnumVariant, Expr, Stmt};
use crate::parsing::lexer::{Position, Token, TokenKind};

verus! {

/// What kept the compiler from going on.
#[derive(Clone, Copy, Debug, PartialEq, Eq, Structural)]
pub enum CompileErrorKind {
    /// The analysis has no entry for a name, a function or a block.
    MissingAnnotation,
    /// A token is not of the kind that its place in the tree asks for.
    MalformedToken,
    /// A local is declared in another frame slot than the analysis gave it.
    SlotMismatch,
    /// A function has more constants than an instruction can name.
    TooManyConstants,
    /// A jump is longer than an instruction can say.
    JumpTooFar,
    /// What is assigned to is no property of a value.
    InvalidAssignmentTarget,
    /// A call has more arguments than an instruction can count.
    TooManyArguments,
    /// A function needs more frame slots than an instruction can name.
    TooManySlots,
}

/// A failure of the compiler: what kept it from going on, and where.
#[derive(Clone, Copy, Debug, PartialEq, Eq, Structural)]
pub struct CompileError {
    pub kind: CompileErrorKind,
    pub at: Position,
}

/// A function as the compiler sees it: its key in the table of the
/// analysis, its name, its parameters, of which the last takes the surplus
/// arguments where `vararg` holds, and its body.
pub struct FunctionAst {
    pub key: Position,
    pub name: Seq<char>,
    pub params: Seq<Token>,
    pub vararg: bool,
    pub body: Expr,
}

/// What an instruction uses a string constant for.
pub enum TextUse {
    Literal,
    LoadGlobal,
    StoreGlobal,
    GetProperty,
    SetProperty,
    HasProperty,
    SetMethod,
}

/// An instruction before its constant has an index: the instruction
/// itself where it names no constant, and else what the constant is.
pub enum Emitted {
    /// An instruction that names no constant.
    Plain(Opcode),
    /// `LoadConst` of this integer.
    Integer(i64),
    /// The instruction for this use, of a string constant with this text.
    Text(TextUse, Seq<char>),
    /// The value of this function with this many captured bindings:
    /// `LoadConst` of the function where it captures nothing, and else
    /// `MakeClosure` of it.
    Function(FunctionAst, nat),
    /// `LoadConst` of a descriptor of a struct with this name and these fields.
    Struct(Seq<char>, Seq<Seq<char>>),
    /// `LoadConst` of a descriptor of an enumeration with this name, whose
    /// variants have these names and fields.
    Enum(Seq<char>, Seq<(Seq<char>, Seq<Seq<char>>)>),
}

/// An instruction with the source line that it is recorded under.
pub struct Emission {
    pub what: Emitted,
    pub line: u32,
}

/// The table of the analysis as plain values.
pub struct Table {
    pub variables: Seq<(Position, VariableKind)>,
    pub infos: Seq<(Position, FunctionInfoModel)>,
    pub blocks: Seq<(Position, u16)>,
}

/// The first entry of `entries` under `position`.
pub open spec fn entry_at<T>(entries: Seq<(Position, T)>, position: Position) -> Option<T>
    decreases entries.len(),
{
    if entries.len() == 0 {
        None
    } else if entries[0].0 == position {
        Some(entries[0].1)
    } else {
        entry_at(entries.drop_first(), position)
    }
}

/// An instruction that names no constant, at a place of the source.
pub open spec fn plain(opcode: Opcode, at: Position) -> Emission {
    Emission { what: Emitted::Plain(opcode), line: at.line }
}

/// An instruction that uses a string constant, at a place of the source.
pub open spec fn textual(use_: TextUse, text: Seq<char>, at: Position) -> Emission {
    Emission { what: Emitted::Text(use_, text), line: at.line }
}

/// A failure at a place of the source.
pub open spec fn failure<T>(kind: CompileErrorKind, at: Position) -> Result<T, CompileError> {
    Err(CompileError { kind, at })
}

/// Where an expression starts, as far as a token of it says.
pub open spec fn spec_first_position(e: Expr) -> Position
    decreases e,
{
    match e {
        Expr::Number(token) => token.position,
        Expr::ConstString(token) => token.position,
        Expr::Name(token) => token.position,
        Expr::Binary(_, lhs, _) => spec_first_position(*lhs),
        Expr::Unary(op, _) => op.position,
        Expr::If(condition, _, _) => spec_first_position(*condition),
        Expr::Block(begin, _, _) => begin.position,
        Expr::SingleStatement(stmt) => spec_stmt_position(*stmt),
        Expr::Call(callee, _) => spec_first_position(*callee),
        Expr::PartialCall(callee, _) => spec_first_position(*callee),
        Expr::PropertyAccess(target, _) => spec_first_position(*target),
        Expr::PropertyTest(target, _) => spec_first_position(*target),
        Expr::AnonFunction(_, _, arrow, _) => arrow.position,
    }
}

/// Where a statement starts, as far as a token of it says.
pub open spec fn spec_stmt_position(s: Stmt) -> Position
    decreases s,
{
    match s {
        Stmt::Print(token, _) => token.position,
        Stmt::VarDeclaration(name, _) => name.position,
        Stmt::Assignment(name, _) => name.position,
        Stmt::PropertyAssignment(target, _) => spec_first_position(target),
        Stmt::Expression(e) => spec_first_position(e),
        Stmt::Assert(token, _) => token.position,
        Stmt::Pass(token) => token.position,
        Stmt::FunctionDeclaration { name, args, vararg, body } => name.position,
        Stmt::StructDeclaration { name, fields } => name.position,
        Stmt::EnumDeclaration { name, variants } => name.position,
        Stmt::ImplBlock { name, implementations } => name.position,
    }
}

/// The instructions that put the value of the variable `name` on the stack.
pub open spec fn load_code(name: Token, table: Table, closed: Seq<Seq<char>>, depth: u16) -> Result<
    Seq<Emission>,
    CompileError,
> {
    let at = name.position;
    match entry_at(table.variables, at) {
        None => failure(CompileErrorKind::MissingAnnotation, at),
        Some(kind) => if depth == u16::MAX {
            failure(CompileErrorKind::TooManySlots, at)
        } else {
            Ok(
                match kind {
                    VariableKind::Local(slot) => if has_name(closed, name.name()) {
                        seq![plain(Opcode::LoadLocal(slot), at), plain(Opcode::LoadCell, at)]
                    } else {
                        seq![plain(Opcode::LoadLocal(slot), at)]
                    },
                    VariableKind::Closed(index) => seq![
                        plain(Opcode::LoadUpvalue(index), at),
                        plain(Opcode::LoadCell, at),
                    ],
                    VariableKind::Global => seq![textual(TextUse::LoadGlobal, name.name(), at)],
                    VariableKind::Builtin(index) => seq![plain(Opcode::LoadBuiltin(index), at)],
                },
            )
        },
    }
}

/// The instructions that take the top value off the stack and make it the
/// value of the variable `name`.
pub open spec fn store_code(name: Token, table: Table, closed: Seq<Seq<char>>) -> Result<
    Seq<Emission>,
    CompileError,
> {
    let at = name.position;
    match entry_at(table.variables, at) {
        None => failure(CompileErrorKind::MissingAnnotation, at),
        Some(VariableKind::Local(slot)) => Ok(
            if has_name(closed, name.name()) {
                seq![plain(Opcode::LoadLocal(slot), at), plain(Opcode::StoreCell, at)]
            } else {
                seq![plain(Opcode::StoreLocal(slot), at)]
            },
        ),
        Some(VariableKind::Closed(index)) => Ok(seq![plain(Opcode::StoreUpvalue(index), at)]),
        Some(VariableKind::Global) => Ok(seq![textual(TextUse::StoreGlobal, name.name(), at)]),
        Some(VariableKind::Builtin(_)) => failure(CompileErrorKind::InvalidAssignmentTarget, at),
    }
}

/// The instructions that load the bindings that a function captures, from
/// the `from`-th on, each from the frame slot or from the captured binding
/// of the enclosing function that its descriptor names.
pub open spec fn capture_code(upvalues: Seq<UpvalueDescriptor>, from: nat, at: Position) -> Seq<
    Emission,
>
    decreases upvalues.len() - from,
{
    if from >= upvalues.len() {
        Seq::empty()
    } else {
        seq![
            plain(
                if upvalues[from as int].from_enclosing_upvalues {
                    Opcode::LoadUpvalue(upvalues[from as int].slot)
                } else {
                    Opcode::LoadLocal(upvalues[from as int].slot)
                },
                at,
            ),
        ] + capture_code(upvalues, from + 1, at)
    }
}

/// The instructions that put the value of a function on the stack: the
/// function itself where it captures nothing, and else the captured
/// bindings in order and the closure of them.
pub open spec fn closure_code(function: FunctionAst, table: Table, at: Position, depth: u16) -> Result<
    Seq<Emission>,
    CompileError,
> {
    match entry_at(table.infos, function.key) {
        None => failure(CompileErrorKind::MissingAnnotation, function.key),
        Some(info) => if info.upvalues.len() > u16::MAX {
            failure(CompileErrorKind::TooManySlots, at)
        } else if depth == u16::MAX {
            failure(CompileErrorKind::TooManySlots, at)
        } else {
            Ok(
                capture_code(info.upvalues, 0, at).push(
                    Emission {
                        what: Emitted::Function(function, info.upvalues.len()),
                        line: at.line,
                    },
                ),
            )
        },
    }
}

/// The instructions at the start of a function that move those of its
/// first `n` parameters into cells that inner functions capture.
pub open spec fn prologue_code(function: FunctionAst, closed: Seq<Seq<char>>, n: nat) -> Seq<
    Emission,
>
    decreases n,
{
    if n == 0 || n > function.params.len() {
        Seq::empty()
    } else {
        prologue_code(function, closed, (n - 1) as nat) + if has_name(
            closed,
            function.params[n - 1].name(),
        ) {
            seq![
                plain(Opcode::LoadLocal(n as u16), function.key),
                plain(Opcode::MakeCell, function.key),
                plain(Opcode::StoreLocal(n as u16), function.key),
            ]
        } else {
            Seq::empty()
        }
    }
}

/// The arity of a function: its parameters are required, but for the one
/// that takes the surplus arguments.
pub open spec fn arity_of(function: FunctionAst) -> Arity {
    if function.vararg {
        Arity::AtLeast((function.params.len() - 1) as usize)
    } else {
        Arity::Exact(function.params.len() as usize)
    }
}

/// The instructions of a function's body: the prologue, the instructions
/// of the body expression, and `Return`.
pub open spec fn function_code(function: FunctionAst, table: Table) -> Result<
    Seq<Emission>,
    CompileError,
>
    decreases function.body, 3nat,
{
    match entry_at(table.infos, function.key) {
        None => failure(CompileErrorKind::MissingAnnotation, function.key),
        Some(info) => if function.params.len() >= u16::MAX {
            failure(CompileErrorKind::TooManySlots, function.key)
        } else {
            match expr_code(
                function.body,
                table,
                info.closed_names,
                (function.params.len() + 1) as u16,
            ) {
                Ok(body) => Ok(
                    (prologue_code(function, info.closed_names, function.params.len())
                        + body).push(plain(Opcode::Return, function.key)),
                ),
                Err(error) => Err(error),
            }
        },
    }
}

/// A function declaration or an anonymous function as the compiler sees it.
pub open spec fn function_ast(
    key: Position,
    name: Seq<char>,
    args: Seq<Token>,
    vararg: Option<Token>,
    body: Expr,
) -> FunctionAst {
    FunctionAst { key, name, params: all_params(args, vararg), vararg: vararg is Some, body }
}

/// The instructions that put the value of a function on the stack, once
/// the function itself compiles.
pub open spec fn function_value_code(
    function: FunctionAst,
    table: Table,
    at: Position,
    depth: u16,
) -> Result<Seq<Emission>, CompileError>
    decreases function.body, 4nat,
{
    match function_code(function, table) {
        Ok(_) => closure_code(function, table, at, depth),
        Err(error) => Err(error),
    }
}

/// The instructions for an expression in a function whose locals of the
/// names `closed` live in cells, with `depth` frame slots in use. They
/// leave the value of the expression in the next frame slot.
pub open spec fn expr_code(e: Expr, table: Table, closed: Seq<Seq<char>>, depth: u16) -> Result<
    Seq<Emission>,
    CompileError,
>
    decreases e, 1nat,
{
    match e {
        Expr::Number(token) => match token.kind {
            TokenKind::Number(n) => if depth == u16::MAX {
                failure(CompileErrorKind::TooManySlots, token.position)
            } else if -32768 <= n <= 32767 {
                Ok(seq![plain(Opcode::LoadImmediateInt(n as i16), token.position)])
            } else {
                Ok(seq![Emission { what: Emitted::Integer(n), line: token.position.line }])
            },
            _ => failure(CompileErrorKind::MalformedToken, token.position),
        },
        Expr::ConstString(token) => if depth == u16::MAX {
            failure(CompileErrorKind::TooManySlots, token.position)
        } else {
            Ok(seq![textual(TextUse::Literal, token.name(), token.position)])
        },
        Expr::Name(token) => load_code(token, table, closed, depth),
        Expr::Binary(op, lhs, rhs) => binary_code(e, table, closed, depth),
        Expr::Unary(op, operand) => match op.kind {
            TokenKind::Not => match expr_code(*operand, table, closed, depth) {
                Ok(code) => Ok(code.push(plain(Opcode::Not, op.position))),
                Err(error) => Err(error),
            },
            _ => failure(CompileErrorKind::MalformedToken, op.position),
        },
        Expr::If(condition, then_branch, else_branch) => {
            let at = spec_first_position(*condition);
            match expr_code(*condition, table, closed, depth) {
                Ok(test) => match expr_code(*then_branch, table, closed, depth) {
                    Ok(then_code) => if then_code.len() + 1 > u16::MAX {
                        failure(CompileErrorKind::JumpTooFar, at)
                    } else {
                        let otherwise = match else_branch {
                            Some(other) => expr_code(*other, table, closed, depth),
                            None => Ok(seq![plain(Opcode::LoadNothing, at)]),
                        };
                        match otherwise {
                            Ok(else_code) => if else_code.len() > u16::MAX {
                                failure(CompileErrorKind::JumpTooFar, at)
                            } else {
                                Ok(
                                    test.push(
                                        plain(
                                            Opcode::JumpIfFalse((then_code.len() + 1) as u16),
                                            at,
                                        ),
                                    ) + then_code.push(
                                        plain(Opcode::Jump(else_code.len() as u16), at),
                                    ) + else_code,
                                )
                            },
                            Err(error) => Err(error),
                        }
                    },
                    Err(error) => Err(error),
                },
                Err(error) => Err(error),
            }
        },
        Expr::Block(begin, _, stmts) => match entry_at(table.blocks, begin.position) {
            None => failure(CompileErrorKind::MissingAnnotation, begin.position),
            Some(count) => match stmts_code(stmts@, stmts@.len(), table, closed, depth) {
                Ok((code, now, kept)) => scope_end(code, now, kept, Some(count), depth, begin.position),
                Err(error) => Err(error),
            },
        },
        Expr::SingleStatement(stmt) => match stmt_code(*stmt, true, table, closed, depth) {
            Ok((code, now, kept)) => scope_end(code, now, kept, None, depth, spec_stmt_position(*stmt)),
            Err(error) => Err(error),
        },
        Expr::Call(callee, args) => {
            let at = spec_first_position(*callee);
            match expr_code(*callee, table, closed, depth) {
                Ok(callee_code) => if args@.len() > u16::MAX {
                    failure(CompileErrorKind::TooManyArguments, at)
                } else {
                    match args_code(args@, args@.len(), table, closed, (depth + 1) as u16) {
                        Ok(code) => Ok(
                            (callee_code + code).push(plain(Opcode::Call(args@.len() as u16), at)),
                        ),
                        Err(error) => Err(error),
                    }
                },
                Err(error) => Err(error),
            }
        },
        Expr::PartialCall(callee, args) => {
            let at = spec_first_position(*callee);
            match expr_code(*callee, table, closed, depth) {
                Ok(callee_code) => if args@.len() > u16::MAX {
                    failure(CompileErrorKind::TooManyArguments, at)
                } else {
                    match optional_args_code(
                        args@,
                        args@.len(),
                        table,
                        closed,
                        (depth + 1) as u16,
                        at,
                    ) {
                        Ok(code) => Ok(
                            (callee_code + code).push(
                                plain(Opcode::PartialCall(args@.len() as u16), at),
                            ),
                        ),
                        Err(error) => Err(error),
                    }
                },
                Err(error) => Err(error),
            }
        },
        Expr::PropertyAccess(target, name) => match expr_code(*target, table, closed, depth) {
            Ok(code) => Ok(code.push(textual(TextUse::GetProperty, name.name(), name.position))),
            Err(error) => Err(error),
        },
        Expr::PropertyTest(target, name) => match expr_code(*target, table, closed, depth) {
            Ok(code) => Ok(code.push(textual(TextUse::HasProperty, name.name(), name.position))),
            Err(error) => Err(error),
        },
        Expr::AnonFunction(args, vararg, arrow, body) => function_value_code(
            function_ast(arrow.position, Seq::empty(), args@, vararg, *body),
            table,
            arrow.position,
            depth,
        ),
    }
}

/// The end of a scope that began with `depth` frame slots in use: a scope
/// that left no value gets `Nothing` for one, a block must have the
/// number of locals that the analysis counted, the value goes to the first
/// slot of the scope, and the locals are dropped.
pub open spec fn scope_end(
    code: Seq<Emission>,
    now: u16,
    kept: bool,
    count: Option<u16>,
    depth: u16,
    at: Position,
) -> Result<Seq<Emission>, CompileError> {
    if !kept && now == u16::MAX {
        failure(CompileErrorKind::TooManySlots, at)
    } else {
        let with_value = if kept {
            code
        } else {
            code.push(plain(Opcode::LoadNothing, at))
        };
        let top = if kept {
            now
        } else {
            (now + 1) as u16
        };
        if (count matches Some(n) && depth + n + 1 != top) || top <= depth {
            failure(CompileErrorKind::SlotMismatch, at)
        } else {
            let locals = (top - depth - 1) as u16;
            Ok(
                if locals == 0 {
                    with_value
                } else if locals == 1 {
                    with_value.push(plain(Opcode::StoreLocal(depth), at))
                } else {
                    with_value.push(plain(Opcode::StoreLocal(depth), at)).push(
                        plain(Opcode::Pop((locals - 1) as u16), at),
                    )
                },
            )
        }
    }
}

/// The instructions for an operator with two operands. The arithmetic and
/// the comparisons evaluate both operands and apply their instruction;
/// `and` and `or` jump over the right operand where the left one decides,
/// and leave one or zero.
pub open spec fn binary_code(e: Expr, table: Table, closed: Seq<Seq<char>>, depth: u16) -> Result<
    Seq<Emission>,
    CompileError,
>
    decreases e, 0nat,
{
    match e {
        Expr::Binary(op, lhs, rhs) => {
            let at = op.position;
            match spec_operator_opcode(op.kind) {
                Some(opcode) => match expr_code(*lhs, table, closed, depth) {
                    Ok(left) => match expr_code(*rhs, table, closed, (depth + 1) as u16) {
                        Ok(right) => Ok((left + right).push(plain(opcode, at))),
                        Err(error) => Err(error),
                    },
                    Err(error) => Err(error),
                },
                None => if !(op.kind is And || op.kind is Or) {
                    failure(CompileErrorKind::MalformedToken, at)
                } else {
                    let negate: Seq<Emission> = if op.kind is Or {
                        seq![plain(Opcode::Not, at)]
                    } else {
                        Seq::empty()
                    };
                    match expr_code(*lhs, table, closed, depth) {
                        Ok(left) => match expr_code(*rhs, table, closed, depth) {
                            Ok(right) => if right.len() + negate.len() + 3 > u16::MAX {
                                failure(CompileErrorKind::JumpTooFar, at)
                            } else {
                                Ok(
                                    left + negate + seq![
                                        plain(
                                            Opcode::JumpIfFalse(
                                                (right.len() + negate.len() + 3) as u16,
                                            ),
                                            at,
                                        ),
                                    ] + right + negate + seq![
                                        plain(Opcode::JumpIfFalse(2), at),
                                        plain(
                                            Opcode::LoadImmediateInt(
                                                if op.kind is Or {
                                                    0
                                                } else {
                                                    1
                                                },
                                            ),
                                            at,
                                        ),
                                        plain(Opcode::Jump(1), at),
                                        plain(
                                            Opcode::LoadImmediateInt(
                                                if op.kind is Or {
                                                    1
                                                } else {
                                                    0
                                                },
                                            ),
                                            at,
                                        ),
                                    ],
                                )
                            },
                            Err(error) => Err(error),
                        },
                        Err(error) => Err(error),
                    }
                },
            }
        },
        _ => failure(CompileErrorKind::MalformedToken, spec_first_position(e)),
    }
}

/// The instructions for the first `n` arguments of a call, each in the
/// frame slot after the one before it.
pub open spec fn args_code(
    args: Seq<Expr>,
    n: nat,
    table: Table,
    closed: Seq<Seq<char>>,
    depth: u16,
) -> Result<Seq<Emission>, CompileError>
    decreases args, n,
{
    if n == 0 || n > args.len() {
        Ok(Seq::empty())
    } else {
        match args_code(args, (n - 1) as nat, table, closed, depth) {
            Ok(before) => match expr_code(args[n - 1], table, closed, (depth + n - 1) as u16) {
                Ok(code) => Ok(before + code),
                Err(error) => Err(error),
            },
            Err(error) => Err(error),
        }
    }
}

/// The instructions for the first `n` arguments of a partial call; a
/// missing argument is the hole marker.
pub open spec fn optional_args_code(
    args: Seq<Option<Expr>>,
    n: nat,
    table: Table,
    closed: Seq<Seq<char>>,
    depth: u16,
    at: Position,
) -> Result<Seq<Emission>, CompileError>
    decreases args, n,
{
    if n == 0 || n > args.len() {
        Ok(Seq::empty())
    } else {
        match optional_args_code(args, (n - 1) as nat, table, closed, depth, at) {
            Ok(before) => match args[n - 1] {
                Some(arg) => match expr_code(arg, table, closed, (depth + n - 1) as u16) {
                    Ok(code) => Ok(before + code),
                    Err(error) => Err(error),
                },
                None => if depth + n - 1 >= u16::MAX {
                    failure(CompileErrorKind::TooManySlots, at)
                } else {
                    Ok(before.push(plain(Opcode::LoadHole, at)))
                },
            },
            Err(error) => Err(error),
        }
    }
}

/// The names of tokens.
pub open spec fn names(tokens: Seq<Token>) -> Seq<Seq<char>> {
    Seq::new(tokens.len(), |i: int| tokens[i].name())
}

/// The names and the fields of variants.
pub open spec fn variant_shapes(variants: Seq<EnumVariant>) -> Seq<(Seq<char>, Seq<Seq<char>>)> {
    Seq::new(variants.len(), |i: int| (variants[i].name.name(), names(variants[i].fields@)))
}

/// The check that a declaration stands in the frame slot that the analysis
/// gave it.
pub open spec fn slot_check(name: Token, table: Table, depth: u16) -> Result<(), CompileError> {
    match entry_at(table.variables, name.position) {
        Some(VariableKind::Local(slot)) => if slot == depth {
            Ok(())
        } else {
            failure(CompileErrorKind::SlotMismatch, name.position)
        },
        Some(_) => failure(CompileErrorKind::SlotMismatch, name.position),
        None => failure(CompileErrorKind::MissingAnnotation, name.position),
    }
}

/// The instructions for a statement, the number of frame slots in use
/// after it, and whether it left a value on the stack, which only an
/// expression statement does, and only where `keep` asks for it. A
/// declaration leaves its local on the stack; any other statement leaves
/// the stack as it was.
pub open spec fn stmt_code(s: Stmt, keep: bool, table: Table, closed: Seq<Seq<char>>, depth: u16) -> Result<
    (Seq<Emission>, u16, bool),
    CompileError,
>
    decreases s, 1nat,
{
    match s {
        Stmt::Print(token, e) => match expr_code(e, table, closed, depth) {
            Ok(code) => Ok((code.push(plain(Opcode::Print, token.position)), depth, false)),
            Err(error) => Err(error),
        },
        Stmt::VarDeclaration(name, initializer) => {
            let at = name.position;
            let value = match initializer {
                Some(e) => expr_code(e, table, closed, depth),
                None => if depth == u16::MAX {
                    failure(CompileErrorKind::TooManySlots, at)
                } else {
                    Ok(seq![plain(Opcode::LoadNothing, at)])
                },
            };
            match value {
                Ok(code) => match slot_check(name, table, depth) {
                    Ok(_) => Ok(
                        (
                            if has_name(closed, name.name()) {
                                code.push(plain(Opcode::MakeCell, at))
                            } else {
                                code
                            },
                            (depth + 1) as u16,
                            false,
                        ),
                    ),
                    Err(error) => Err(error),
                },
                Err(error) => Err(error),
            }
        },
        Stmt::Assignment(name, e) => match expr_code(e, table, closed, depth) {
            Ok(code) => match store_code(name, table, closed) {
                Ok(store) => Ok((code + store, depth, false)),
                Err(error) => Err(error),
            },
            Err(error) => Err(error),
        },
        Stmt::PropertyAssignment(target, e) => match target {
            Expr::PropertyAccess(object, name) => match expr_code(*object, table, closed, depth) {
                Ok(object_code) => match expr_code(e, table, closed, (depth + 1) as u16) {
                    Ok(code) => Ok(
                        (
                            (object_code + code).push(
                                textual(TextUse::SetProperty, name.name(), name.position),
                            ),
                            depth,
                            false,
                        ),
                    ),
                    Err(error) => Err(error),
                },
                Err(error) => Err(error),
            },
            _ => failure(CompileErrorKind::InvalidAssignmentTarget, spec_first_position(target)),
        },
        Stmt::Expression(e) => match expr_code(e, table, closed, depth) {
            Ok(code) => if keep {
                Ok((code, (depth + 1) as u16, true))
            } else {
                Ok((code.push(plain(Opcode::Pop(1), spec_first_position(e))), depth, false))
            },
            Err(error) => Err(error),
        },
        Stmt::Assert(token, e) => match expr_code(e, table, closed, depth) {
            Ok(code) => Ok((code.push(plain(Opcode::Assert, token.position)), depth, false)),
            Err(error) => Err(error),
        },
        Stmt::Pass(_) => Ok((Seq::empty(), depth, false)),
        Stmt::FunctionDeclaration { name, args, vararg, body } => {
            let at = name.position;
            let function = function_ast(at, name.name(), args@, vararg, body);
            match slot_check(name, table, depth) {
                Ok(_) => if has_name(closed, name.name()) {
                    if depth == u16::MAX {
                        failure(CompileErrorKind::TooManySlots, at)
                    } else {
                        match function_value_code(function, table, at, (depth + 1) as u16) {
                            Ok(code) => Ok(
                                (
                                    seq![
                                        plain(Opcode::LoadNothing, at),
                                        plain(Opcode::MakeCell, at),
                                    ] + code + seq![
                                        plain(Opcode::LoadLocal(depth), at),
                                        plain(Opcode::StoreCell, at),
                                    ],
                                    (depth + 1) as u16,
                                    false,
                                ),
                            ),
                            Err(error) => Err(error),
                        }
                    }
                } else {
                    match function_value_code(function, table, at, depth) {
                        Ok(code) => Ok((code, (depth + 1) as u16, false)),
                        Err(error) => Err(error),
                    }
                },
                Err(error) => Err(error),
            }
        },
        Stmt::StructDeclaration { name, fields } => Ok(
            (
                seq![
                    Emission {
                        what: Emitted::Struct(name.name(), names(fields@)),
                        line: name.position.line,
                    },
                    textual(TextUse::StoreGlobal, name.name(), name.position),
                ],
                depth,
                false,
            ),
        ),
        Stmt::EnumDeclaration { name, variants } => Ok(
            (
                seq![
                    Emission {
                        what: Emitted::Enum(name.name(), variant_shapes(variants@)),
                        line: name.position.line,
                    },
                    textual(TextUse::StoreGlobal, name.name(), name.position),
                ],
                depth,
                false,
            ),
        ),
        Stmt::ImplBlock { name, implementations } => match load_code(name, table, closed, depth) {
            Ok(target) => match methods_code(
                implementations@,
                implementations@.len(),
                table,
                (depth + 1) as u16,
            ) {
                Ok(code) => Ok(((target + code).push(plain(Opcode::Pop(1), name.position)), depth, false)),
                Err(error) => Err(error),
            },
            Err(error) => Err(error),
        },
    }
}

/// The instructions for the first `n` statements of a scope, the number of
/// frame slots in use after them, and whether the last of all statements
/// left its value on the stack.
pub open spec fn stmts_code(
    stmts: Seq<Stmt>,
    n: nat,
    table: Table,
    closed: Seq<Seq<char>>,
    depth: u16,
) -> Result<(Seq<Emission>, u16, bool), CompileError>
    decreases stmts, n,
{
    if n == 0 || n > stmts.len() {
        Ok((Seq::empty(), depth, false))
    } else {
        match stmts_code(stmts, (n - 1) as nat, table, closed, depth) {
            Ok((before, now, _)) => match stmt_code(
                stmts[n - 1],
                n == stmts.len(),
                table,
                closed,
                now,
            ) {
                Ok((code, after, kept)) => Ok((before + code, after, kept)),
                Err(error) => Err(error),
            },
            Err(error) => Err(error),
        }
    }
}

/// The instructions for the first `n` methods of an implementation block:
/// each function value, and the instruction that makes it the method of
/// its name of the descriptor below it. What is no function declaration
/// is passed over.
pub open spec fn methods_code(methods: Seq<Stmt>, n: nat, table: Table, depth: u16) -> Result<
    Seq<Emission>,
    CompileError,
>
    decreases methods, n,
{
    if n == 0 || n > methods.len() {
        Ok(Seq::empty())
    } else {
        match methods_code(methods, (n - 1) as nat, table, depth) {
            Ok(before) => match methods[n - 1] {
                Stmt::FunctionDeclaration { name, args, vararg, body } => match function_value_code(
                    function_ast(name.position, name.name(), args@, vararg, body),
                    table,
                    name.position,
                    depth,
                ) {
                    Ok(code) => Ok(
                        (before + code).push(
                            textual(TextUse::SetMethod, name.name(), name.position),
                        ),
                    ),
                    Err(error) => Err(error),
                },
                _ => Ok(before),
            },
            Err(error) => Err(error),
        }
    }
}

/// A bound on the number of constants that an expression needs in any one
/// function: every literal, name, property and function value counts for
/// one, a declaration for one or two, and the body of an inner function
/// for what it holds.
pub open spec fn expr_constants(e: Expr) -> nat
    decreases e, 0nat,
{
    match e {
        Expr::Number(_) => 1,
        Expr::ConstString(_) => 1,
        Expr::Name(_) => 1,
        Expr::Binary(_, lhs, rhs) => expr_constants(*lhs) + expr_constants(*rhs),
        Expr::Unary(_, operand) => expr_constants(*operand),
        Expr::If(condition, then_branch, else_branch) => expr_constants(*condition)
            + expr_constants(*then_branch) + match else_branch {
            Some(otherwise) => expr_constants(*otherwise),
            None => 0,
        },
        Expr::Block(_, _, stmts) => stmts_constants(stmts@, stmts@.len()),
        Expr::SingleStatement(stmt) => stmt_constants(*stmt),
        Expr::Call(callee, args) => expr_constants(*callee) + args_constants(args@, args@.len()),
        Expr::PartialCall(callee, args) => expr_constants(*callee) + optional_args_constants(
            args@,
            args@.len(),
        ),
        Expr::PropertyAccess(target, _) => expr_constants(*target) + 1,
        Expr::PropertyTest(target, _) => expr_constants(*target) + 1,
        Expr::AnonFunction(_, _, _, body) => expr_constants(*body) + 1,
    }
}

/// The bound for the first `n` arguments of a call.
pub open spec fn args_constants(args: Seq<Expr>, n: nat) -> nat
    decreases args, n,
{
    if n == 0 || n > args.len() {
        0
    } else {
        args_constants(args, (n - 1) as nat) + expr_constants(args[n - 1])
    }
}

/// The bound for the first `n` arguments of a partial call.
pub open spec fn optional_args_constants(args: Seq<Option<Expr>>, n: nat) -> nat
    decreases args, n,
{
    if n == 0 || n > args.len() {
        0
    } else {
        optional_args_constants(args, (n - 1) as nat) + match args[n - 1] {
            Some(arg) => expr_constants(arg),
            None => 0,
        }
    }
}

/// The bound for a statement.
pub open spec fn stmt_constants(s: Stmt) -> nat
    decreases s, 0nat,
{
    match s {
        Stmt::Print(_, e) => expr_constants(e),
        Stmt::VarDeclaration(_, initializer) => 1 + match initializer {
            Some(e) => expr_constants(e),
            None => 0,
        },
        Stmt::Assignment(_, e) => expr_constants(e) + 1,
        Stmt::PropertyAssignment(target, e) => expr_constants(target) + expr_constants(e) + 1,
        Stmt::Expression(e) => expr_constants(e),
        Stmt::Assert(_, e) => expr_constants(e),
        Stmt::Pass(_) => 0,
        Stmt::FunctionDeclaration { name, args, vararg, body } => expr_constants(body) + 2,
        Stmt::StructDeclaration { name, fields } => 2,
        Stmt::EnumDeclaration { name, variants } => 2,
        Stmt::ImplBlock { name, implementations } => 1 + stmts_constants(
            implementations@,
            implementations@.len(),
        ),
    }
}

/// The bound for the first `n` statements of a list.
pub open spec fn stmts_constants(stmts: Seq<Stmt>, n: nat) -> nat
    decreases stmts, n,
{
    if n == 0 || n > stmts.len() {
        0
    } else {
        stmts_constants(stmts, (n - 1) as nat) + stmt_constants(stmts[n - 1])
    }
}

/// The bound for more statements is no less.
pub proof fn lemma_stmts_constants_grow(stmts: Seq<Stmt>, k: nat, n: nat)
    requires
        k <= n <= stmts.len(),
    ensures
        stmts_constants(stmts, k) <= stmts_constants(stmts, n),
    decreases n,
{
    if k < n {
        lemma_stmts_constants_grow(stmts, k, (n - 1) as nat);
    }
}

/// The bound for more arguments is no less.
pub proof fn lemma_args_constants_grow(args: Seq<Expr>, k: nat, n: nat)
    requires
        k <= n <= args.len(),
    ensures
        args_constants(args, k) <= args_constants(args, n),
    decreases n,
{
    if k < n {
        lemma_args_constants_grow(args, k, (n - 1) as nat);
    }
}

/// The bound for more arguments of a partial call is no less.
pub proof fn lemma_optional_args_constants_grow(args: Seq<Option<Expr>>, k: nat, n: nat)
    requires
        k <= n <= args.len(),
    ensures
        optional_args_constants(args, k) <= optional_args_constants(args, n),
    decreases n,
{
    if k < n {
        lemma_optional_args_constants_grow(args, k, (n - 1) as nat);
    }
}

/// The program as a function: it has no name and no parameters, and its
/// key is the position of its first token.
pub open spec fn program_function(program: Expr) -> FunctionAst {
    FunctionAst {
        key: match program {
            Expr::Block(begin, _, _) => begin.position,
            _ => Position { line: 0, column: 0 },
        },
        name: Seq::empty(),
        params: Seq::empty(),
        vararg: false,
        body: program,
    }
}

impl Annotations {
    /// The table as plain values.
    pub open spec fn model(&self) -> Table {
        Table {
            variables: self.variables@,
            infos: infos_model(self.functions@),
            blocks: self.blocks@,
        }
    }
}

/// The shapes of the variants that an enumeration descriptor holds: the
/// name of each, and the fields of the struct descriptor that it names.
pub open spec fn stored_shapes(heap: &GC, variants: Seq<(String, Value)>) -> Seq<
    (Seq<char>, Seq<Seq<char>>),
> {
    Seq::new(
        variants.len(),
        |i: int|
            (
                variants[i].0@,
                match variants[i].1 {
                    Value::StructDescriptor(h) => match heap.object(h) {
                        OwnedObjectItem::StructDescriptor(descriptor) => texts(descriptor.fields@),
                        _ => Seq::empty(),
                    },
                    _ => Seq::empty(),
                },
            ),
    )
}

/// Whether a struct descriptor of the heap is a fresh one for the variant
/// of an enumeration: it has the name, belongs to the enumeration, and has
/// no methods.
pub open spec fn is_variant_of(heap: &GC, entry: (String, Value), parent: usize) -> bool {
    match entry.1 {
        Value::StructDescriptor(h) => heap.contains(h) && (match heap.object(h) {
            OwnedObjectItem::StructDescriptor(descriptor) => descriptor.name@ == entry.0@
                && descriptor.enum_descriptor == Some(parent) && descriptor.methods@.len() == 0,
            _ => false,
        }),
        _ => false,
    }
}

/// Whether the instruction `opcode` is `emitted` with its constant at an
/// index: the instruction names a constant of `constants` that is what
/// `emitted` says. A function constant is one that `compiled` records as
/// the compilation of the function.
pub open spec fn realizes(
    opcode: Opcode,
    emitted: Emitted,
    constants: Seq<Value>,
    heap: &GC,
    compiled: Map<usize, FunctionAst>,
) -> bool {
    match emitted {
        Emitted::Plain(plain) => opcode == plain,
        Emitted::Integer(n) => opcode matches Opcode::LoadConst(ix) && ix < constants.len()
            && constants[ix as int] == Value::Int(n),
        Emitted::Text(use_, text) => {
            let index = match (use_, opcode) {
                (TextUse::Literal, Opcode::LoadConst(ix)) => Some(ix),
                (TextUse::LoadGlobal, Opcode::LoadGlobal(ix)) => Some(ix),
                (TextUse::StoreGlobal, Opcode::StoreGlobal(ix)) => Some(ix),
                (TextUse::GetProperty, Opcode::GetProperty(ix)) => Some(ix),
                (TextUse::SetProperty, Opcode::SetProperty(ix)) => Some(ix),
                (TextUse::HasProperty, Opcode::HasProperty(ix)) => Some(ix),
                (TextUse::SetMethod, Opcode::SetMethod(ix)) => Some(ix),
                _ => None,
            };
            index matches Some(ix) && ix < constants.len() && heap.spec_text(constants[ix as int])
                == Some(text)
        },
        Emitted::Function(function, captures) => {
            let index = match opcode {
                Opcode::LoadConst(ix) => if captures == 0 {
                    Some(ix)
                } else {
                    None
                },
                Opcode::MakeClosure(ix, count) => if captures > 0 && count == captures {
                    Some(ix)
                } else {
                    None
                },
                _ => None,
            };
            index matches Some(ix) && ix < constants.len() && (constants[ix as int] matches Value::Function(
                h,
            ) && compiled.contains_key(h) && compiled[h] == function)
        },
        Emitted::Struct(name, fields) => opcode matches Opcode::LoadConst(ix) && ix
            < constants.len() && (constants[ix as int] matches Value::StructDescriptor(h)
            && heap.contains(h) && (heap.object(h) matches OwnedObjectItem::StructDescriptor(
            descriptor,
        ) && descriptor.name@ == name && texts(descriptor.fields@) == fields
            && descriptor.methods@.len() == 0 && descriptor.enum_descriptor is None)),
        Emitted::Enum(name, variants) => opcode matches Opcode::LoadConst(ix) && ix
            < constants.len() && (constants[ix as int] matches Value::EnumDescriptor(h)
            && heap.contains(h) && (heap.object(h) matches OwnedObjectItem::EnumDescriptor(
            descriptor,
        ) && descriptor.name@ == name && descriptor.methods@.len() == 0 && stored_shapes(
            heap,
            descriptor.variants@,
        ) == variants && forall|i: int|
            0 <= i < descriptor.variants@.len() ==> is_variant_of(
                heap,
                #[trigger] descriptor.variants@[i],
                h,
            ))),
    }
}

/// Whether the instructions, the lines and the constants of a body are
/// `code` with each constant at an index.
pub open spec fn body_realizes(
    chunk: Chunk,
    code: Seq<Emission>,
    heap: &GC,
    compiled: Map<usize, FunctionAst>,
) -> bool {
    &&& chunk.code@.len() == code.len()
    &&& chunk.opcode_to_line@.len() == code.len()
    &&& forall|i: int|
        0 <= i < code.len() ==> realizes(
            chunk.code@[i],
            (#[trigger] code[i]).what,
            chunk.constants@,
            heap,
            compiled,
        ) && chunk.opcode_to_line@[i] == code[i].line
}

/// Whether the object `h` of the heap is the compilation of `function`: a
/// body with the function's arity, name and captured bindings, whose
/// instructions are those of the function.
pub open spec fn is_compilation(
    heap: &GC,
    h: usize,
    function: FunctionAst,
    table: Table,
    compiled: Map<usize, FunctionAst>,
) -> bool {
    &&& heap.contains(h)
    &&& heap.object(h) matches OwnedObjectItem::Function(chunk) && {
        &&& function_code(function, table) matches Ok(code) && body_realizes(
            chunk,
            code,
            heap,
            compiled,
        )
        &&& chunk.arity == arity_of(function)
        &&& chunk.name@ == function.name
        &&& entry_at(table.infos, function.key) matches Some(info) && chunk.upvalues_descriptor@
            == info.upvalues
    }
}

/// Whether every function that `compiled` records is on the heap as its
/// compilation.
pub open spec fn linked(heap: &GC, table: Table, compiled: Map<usize, FunctionAst>) -> bool {
    forall|h: usize| #[trigger]
        compiled.contains_key(h) ==> is_compilation(heap, h, compiled[h], table, compiled)
}

/// Whether `longer` starts with `shorter`.
pub open spec fn extends<T>(longer: Seq<T>, shorter: Seq<T>) -> bool {
    shorter.len() <= longer.len() && longer.subrange(0, shorter.len() as int) == shorter
}

/// An instruction that is what was emitted stays so when constants are
/// added, objects are stored and functions are compiled.
pub proof fn lemma_realizes_stable(
    opcode: Opcode,
    emitted: Emitted,
    constants: Seq<Value>,
    heap: &GC,
    compiled: Map<usize, FunctionAst>,
    later_constants: Seq<Value>,
    later_heap: &GC,
    later_compiled: Map<usize, FunctionAst>,
)
    requires
        realizes(opcode, emitted, constants, heap, compiled),
        extends(later_constants, constants),
        heap.preserved_in(later_heap),
        compiled.submap_of(later_compiled),
    ensures
        realizes(opcode, emitted, later_constants, later_heap, later_compiled),
{
    assert forall|i: int| 0 <= i < constants.len() implies later_constants[i] == constants[i] by {
        assert(later_constants.subrange(0, constants.len() as int)[i] == constants[i]);
    }
    match emitted {
        Emitted::Text(use_, text) => {
            let index = match (use_, opcode) {
                (TextUse::Literal, Opcode::LoadConst(ix)) => Some(ix),
                (TextUse::LoadGlobal, Opcode::LoadGlobal(ix)) => Some(ix),
                (TextUse::StoreGlobal, Opcode::StoreGlobal(ix)) => Some(ix),
                (TextUse::GetProperty, Opcode::GetProperty(ix)) => Some(ix),
                (TextUse::SetProperty, Opcode::SetProperty(ix)) => Some(ix),
                (TextUse::HasProperty, Opcode::HasProperty(ix)) => Some(ix),
                (TextUse::SetMethod, Opcode::SetMethod(ix)) => Some(ix),
                _ => None,
            };
            let ix = index->Some_0;
            match constants[ix as int] {
                Value::Str(h) => {
                    assert(heap.contains(h));
                },
                _ => {},
            }
        },
        Emitted::Function(function, captures) => {
            let index = match opcode {
                Opcode::LoadConst(ix) => Some(ix),
                Opcode::MakeClosure(ix, count) => Some(ix),
                _ => None,
            };
            let ix = index->Some_0;
            let h = constants[ix as int]->Function_0;
            assert(compiled.dom().contains(h));
        },
        Emitted::Struct(name, fields) => {
            let ix = opcode->LoadConst_0;
            let h = constants[ix as int]->StructDescriptor_0;
            assert(heap.contains(h));
        },
        Emitted::Enum(name, variants) => {
            let ix = opcode->LoadConst_0;
            let h = constants[ix as int]->EnumDescriptor_0;
            assert(heap.contains(h));
            let descriptor = heap.object(h)->EnumDescriptor_0;
            assert forall|i: int| 0 <= i < descriptor.variants@.len() implies is_variant_of(
                later_heap,
                #[trigger] descriptor.variants@[i],
                h,
            ) by {
                assert(is_variant_of(heap, descriptor.variants@[i], h));
                let v = descriptor.variants@[i].1->StructDescriptor_0;
                assert(heap.contains(v));
            }
            assert(stored_shapes(later_heap, descriptor.variants@) =~= stored_shapes(
                heap,
                descriptor.variants@,
            )) by {
                assert forall|i: int| 0 <= i < descriptor.variants@.len() implies stored_shapes(
                    later_heap,
                    descriptor.variants@,
                )[i] == stored_shapes(heap, descriptor.variants@)[i] by {
                    assert(is_variant_of(heap, descriptor.variants@[i], h));
                    let v = descriptor.variants@[i].1->StructDescriptor_0;
                    assert(heap.contains(v));
                }
            }
        },
        _ => {},
    }
}

/// A body that is the code that was emitted stays so when constants are
/// added to it, objects are stored and functions are compiled.
pub proof fn lemma_body_stable(
    chunk: Chunk,
    later: Chunk,
    code: Seq<Emission>,
    heap: &GC,
    compiled: Map<usize, FunctionAst>,
    later_heap: &GC,
    later_compiled: Map<usize, FunctionAst>,
)
    requires
        body_realizes(chunk, code, heap, compiled),
        later.code@ == chunk.code@,
        later.opcode_to_line@ == chunk.opcode_to_line@,
        extends(later.constants@, chunk.constants@),
        heap.preserved_in(later_heap),
        compiled.submap_of(later_compiled),
    ensures
        body_realizes(later, code, later_heap, later_compiled),
{
    assert forall|i: int| 0 <= i < code.len() implies realizes(
        later.code@[i],
        (#[trigger] code[i]).what,
        later.constants@,
        later_heap,
        later_compiled,
    ) && later.opcode_to_line@[i] == code[i].line by {
        lemma_realizes_stable(
            chunk.code@[i],
            code[i].what,
            chunk.constants@,
            heap,
            compiled,
            later.constants@,
            later_heap,
            later_compiled,
        );
    }
}

/// The functions that were compiled stay compiled when objects are stored
/// and more functions are compiled.
pub proof fn lemma_linked_stable(
    heap: &GC,
    table: Table,
    compiled: Map<usize, FunctionAst>,
    later_heap: &GC,
    later_compiled: Map<usize, FunctionAst>,
)
    requires
        linked(heap, table, compiled),
        heap.preserved_in(later_heap),
        compiled.submap_of(later_compiled),
        forall|h: usize| #[trigger]
            later_compiled.contains_key(h) && !compiled.contains_key(h) ==> is_compilation(
                later_heap,
                h,
                later_compiled[h],
                table,
                later_compiled,
            ),
    ensures
        linked(later_heap, table, later_compiled),
{
    assert forall|h: usize| #[trigger] later_compiled.contains_key(h) implies is_compilation(
        later_heap,
        h,
        later_compiled[h],
        table,
        later_compiled,
    ) by {
        if compiled.contains_key(h) {
            assert(compiled.dom().contains(h));
            assert(later_compiled[h] == compiled[h]);
            assert(is_compilation(heap, h, compiled[h], table, compiled));
            assert(heap.contains(h));
            let chunk = heap.object(h)->Function_0;
            let code = function_code(compiled[h], table)->Ok_0;
            assert(chunk.constants@.subrange(0, chunk.constants@.len() as int)
                =~= chunk.constants@);
            lemma_body_stable(chunk, chunk, code, heap, compiled, later_heap, later_compiled);
        }
    }
}

/// A local that an inner function captures lives in a cell, in the
/// function that declares it and in every function that captures it: its
/// declaration ends with making the cell, the declaring function reads
/// and writes it through the cell in its slot, and a capturing function
/// through the cell in its captured binding. So the declaring function and
/// the capturing ones read and write one and the same cell.
pub proof fn lemma_captured_locals_live_in_cells(
    name: Token,
    initializer: Option<Expr>,
    table: Table,
    closed: Seq<Seq<char>>,
    depth: u16,
)
    requires
        depth < u16::MAX,
    ensures
        has_name(closed, name.name()) ==> (stmt_code(
            Stmt::VarDeclaration(name, initializer),
            false,
            table,
            closed,
            depth,
        ) matches Ok((code, _, _)) ==> code.len() > 0 && code.last() == plain(
            Opcode::MakeCell,
            name.position,
        )),
        has_name(closed, name.name()) ==> (entry_at(table.variables, name.position) matches Some(
            VariableKind::Local(slot),
        ) ==> load_code(name, table, closed, depth) == Ok::<Seq<Emission>, CompileError>(
            seq![
                plain(Opcode::LoadLocal(slot), name.position),
                plain(Opcode::LoadCell, name.position),
            ],
        ) && store_code(name, table, closed) == Ok::<Seq<Emission>, CompileError>(
            seq![
                plain(Opcode::LoadLocal(slot), name.position),
                plain(Opcode::StoreCell, name.position),
            ],
        )),
        entry_at(table.variables, name.position) matches Some(VariableKind::Closed(index))
            ==> load_code(name, table, closed, depth) == Ok::<Seq<Emission>, CompileError>(
            seq![
                plain(Opcode::LoadUpvalue(index), name.position),
                plain(Opcode::LoadCell, name.position),
            ],
        ) && store_code(name, table, closed) == Ok::<Seq<Emission>, CompileError>(
            seq![plain(Opcode::StoreUpvalue(index), name.position)],
        ),
{
}

} // verus!
