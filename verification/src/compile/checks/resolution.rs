use vstd::prelude::*;
use crate::compile::checks::name_definition_check::SemanticError;
use crate::execution::builtins::{lemma_position, position, BuiltinMap};
use crate::execution::properties::texts;
use crate::execution::chunk::UpvalueDescriptor;
use crate::parsing::ast::{Expr, Stmt};
use crate::parsing::lexer::{Position, Token};
use crate::compile::checks::name_definition_check::all_params;

verus! {

/// What a name stands for where it is used.
#[derive(Clone, Copy, Debug, PartialEq, Eq, Structural)]
pub enum VariableKind {
    /// A local of the function that uses the name, in this slot of its frame.
    Local(u16),
    /// A local of an enclosing function, which the function that uses the
    /// name captured at this index of its captured bindings.
    Closed(u16),
    /// A global of the token's own name.
    Global,
    /// The native function at this index of the registry.
    Builtin(u16),
}

/// A declared name and the frame slot that holds it.
pub struct Binding {
    pub name: String,
    pub slot: u16,
}

/// A function under analysis: the scopes of the blocks that are open in
/// it, innermost last, the number of frame slots in use, the bindings that
/// it captures, and the names of its locals that inner functions capture.
pub struct FunctionScope {
    pub key: Position,
    pub scopes: Vec<Vec<Binding>>,
    pub depth: u16,
    pub upvalues: Vec<UpvalueDescriptor>,
    pub closed_names: Vec<String>,
}

/// A declared name and the frame slot that holds it, as plain values.
pub struct BindingModel {
    pub name: Seq<char>,
    pub slot: u16,
}

/// A function under analysis, as plain values.
pub struct FunctionModel {
    pub key: Position,
    pub scopes: Seq<Seq<BindingModel>>,
    pub depth: u16,
    pub upvalues: Seq<UpvalueDescriptor>,
    pub closed_names: Seq<Seq<char>>,
}

impl Binding {
    pub open spec fn model(self) -> BindingModel {
        BindingModel { name: self.name@, slot: self.slot }
    }
}

/// The bindings of a scope as plain values.
pub open spec fn scope_model(scope: Vec<Binding>) -> Seq<BindingModel> {
    Seq::new(scope@.len(), |i: int| scope@[i].model())
}

impl FunctionScope {
    pub open spec fn model(self) -> FunctionModel {
        FunctionModel {
            key: self.key,
            scopes: Seq::new(self.scopes@.len(), |i: int| scope_model(self.scopes@[i])),
            depth: self.depth,
            upvalues: self.upvalues@,
            closed_names: texts(self.closed_names@),
        }
    }
}

/// The functions under analysis as plain values, outermost first.
pub open spec fn functions_model(functions: Seq<FunctionScope>) -> Seq<FunctionModel> {
    Seq::new(functions.len(), |i: int| functions[i].model())
}

/// The slot of the latest declaration of `name` in a scope.
pub open spec fn lookup_scope(scope: Seq<BindingModel>, name: Seq<char>) -> Option<u16>
    decreases scope.len(),
{
    if scope.len() == 0 {
        None
    } else if scope.last().name == name {
        Some(scope.last().slot)
    } else {
        lookup_scope(scope.drop_last(), name)
    }
}

/// The slot that `name` resolves to in the open scopes of one function:
/// that of its declaration in the innermost scope that declares it.
pub open spec fn lookup_scopes(scopes: Seq<Seq<BindingModel>>, name: Seq<char>) -> Option<u16>
    decreases scopes.len(),
{
    if scopes.len() == 0 {
        None
    } else {
        match lookup_scope(scopes.last(), name) {
            Some(slot) => Some(slot),
            None => lookup_scopes(scopes.drop_last(), name),
        }
    }
}

/// Whether a scope declares `name`.
pub open spec fn declares(scope: Seq<BindingModel>, name: Seq<char>) -> bool {
    exists|i: int| 0 <= i < scope.len() && (#[trigger] scope[i]).name == name
}

/// A scope finds a name exactly where it declares it, and then at one of
/// its declarations.
pub proof fn lemma_lookup_scope(scope: Seq<BindingModel>, name: Seq<char>)
    ensures
        lookup_scope(scope, name) is Some <==> declares(scope, name),
        lookup_scope(scope, name) matches Some(slot) ==> exists|i: int|
            0 <= i < scope.len() && (#[trigger] scope[i]).name == name && scope[i].slot == slot,
    decreases scope.len(),
{
    if scope.len() > 0 {
        lemma_lookup_scope(scope.drop_last(), name);
        if scope.last().name == name {
            assert(scope[scope.len() - 1].name == name);
        } else {
            if declares(scope, name) {
                let i = choose|i: int| 0 <= i < scope.len() && (#[trigger] scope[i]).name == name;
                assert(scope.drop_last()[i].name == name);
            }
            if declares(scope.drop_last(), name) {
                let i = choose|i: int|
                    0 <= i < scope.drop_last().len() && (#[trigger] scope.drop_last()[i]).name
                        == name;
                assert(scope[i].name == name);
            }
            if lookup_scope(scope, name) is Some {
                let slot = lookup_scope(scope, name)->Some_0;
                let i = choose|i: int|
                    0 <= i < scope.drop_last().len() && (#[trigger] scope.drop_last()[i]).name
                        == name && scope.drop_last()[i].slot == slot;
                assert(scope[i].name == name && scope[i].slot == slot);
            }
        }
    }
}

/// Lexical scoping: a name resolves to its declaration in the innermost
/// open scope that declares it, and to nothing where no open scope does.
pub proof fn lemma_innermost_declaration_wins(scopes: Seq<Seq<BindingModel>>, name: Seq<char>)
    ensures
        lookup_scopes(scopes, name) is None <==> forall|d: int|
            0 <= d < scopes.len() ==> !declares(#[trigger] scopes[d], name),
        lookup_scopes(scopes, name) is Some ==> exists|d: int|
            0 <= d < scopes.len() && declares(#[trigger] scopes[d], name) && lookup_scopes(
                scopes,
                name,
            ) == lookup_scope(scopes[d], name) && forall|inner: int|
                d < inner < scopes.len() ==> !declares(#[trigger] scopes[inner], name),
    decreases scopes.len(),
{
    if scopes.len() > 0 {
        let outer = scopes.drop_last();
        lemma_innermost_declaration_wins(outer, name);
        lemma_lookup_scope(scopes.last(), name);
        assert forall|d: int| 0 <= d < outer.len() implies #[trigger] outer[d] == scopes[d] by {}
        if lookup_scope(scopes.last(), name) is Some {
            let d = scopes.len() - 1;
            assert(declares(scopes[d], name));
        } else {
            if lookup_scopes(outer, name) is Some {
                let d = choose|d: int|
                    0 <= d < outer.len() && declares(#[trigger] outer[d], name) && lookup_scopes(
                        outer,
                        name,
                    ) == lookup_scope(outer[d], name) && forall|inner: int|
                        d < inner < outer.len() ==> !declares(#[trigger] outer[inner], name);
                assert(declares(scopes[d], name));
                assert forall|inner: int| d < inner < scopes.len() implies !declares(
                    #[trigger] scopes[inner],
                    name,
                ) by {
                    if inner < outer.len() {
                        assert(outer[inner] == scopes[inner]);
                    }
                }
            } else {
                assert forall|d: int| 0 <= d < scopes.len() implies !declares(
                    #[trigger] scopes[d],
                    name,
                ) by {
                    if d < outer.len() {
                        assert(outer[d] == scopes[d]);
                    }
                }
            }
        }
    }
}

/// Shadowing ends with its scope: once a scope is closed, every name
/// resolves as it did before the scope was opened, whatever the scope
/// declared.
pub proof fn lemma_shadowing_ends_with_scope(
    scopes: Seq<Seq<BindingModel>>,
    inner: Seq<BindingModel>,
    name: Seq<char>,
)
    ensures
        lookup_scopes(scopes.push(inner).drop_last(), name) == lookup_scopes(scopes, name),
        lookup_scopes(scopes.push(inner), name) == (match lookup_scope(inner, name) {
            Some(slot) => Some(slot),
            None => lookup_scopes(scopes, name),
        }),
{
    assert(scopes.push(inner).drop_last() =~= scopes);
}

/// What the analysis keeps of a function once it is done with it, as
/// plain values.
pub struct FunctionInfoModel {
    pub closed_names: Seq<Seq<char>>,
    pub upvalues: Seq<UpvalueDescriptor>,
}

/// The state of the analysis, as plain values: the functions that are
/// open, outermost first, the kinds found so far by the position of the
/// name, the functions done so far by their key, the number of locals of
/// the blocks done so far by the position of the block's first token, and
/// the names declared as globals so far.
pub struct ResolverModel {
    pub functions: Seq<FunctionModel>,
    pub variables: Seq<(Position, VariableKind)>,
    pub infos: Seq<(Position, FunctionInfoModel)>,
    pub blocks: Seq<(Position, u16)>,
    pub globals: Seq<Seq<char>>,
}

/// The index of a captured binding among the captured bindings.
pub open spec fn upvalue_index(upvalues: Seq<UpvalueDescriptor>, descriptor: UpvalueDescriptor) -> Option<int>
    decreases upvalues.len(),
{
    if upvalues.len() == 0 {
        None
    } else if upvalue_index(upvalues.drop_last(), descriptor) is Some {
        upvalue_index(upvalues.drop_last(), descriptor)
    } else if upvalues.last() == descriptor {
        Some(upvalues.len() - 1)
    } else {
        None
    }
}

/// The functions after the one at `level` captured `descriptor`, and the
/// index of the captured binding: the index that it has already, or a new
/// one at the end. Nothing where there is no index left.
pub open spec fn captured(
    functions: Seq<FunctionModel>,
    level: int,
    descriptor: UpvalueDescriptor,
) -> Option<(Seq<FunctionModel>, u16)> {
    match upvalue_index(functions[level].upvalues, descriptor) {
        Some(index) => Some((functions, index as u16)),
        None => if functions[level].upvalues.len() >= u16::MAX {
            None
        } else {
            Some(
                (
                    functions.update(
                        level,
                        FunctionModel {
                            upvalues: functions[level].upvalues.push(descriptor),
                            ..functions[level]
                        },
                    ),
                    functions[level].upvalues.len() as u16,
                ),
            )
        },
    }
}

/// Whether `name` is among `names`.
pub open spec fn has_name(names: Seq<Seq<char>>, name: Seq<char>) -> bool {
    position(names, name) is Some
}

/// The functions after `name` was put among the names of the function at
/// `level` that inner functions capture.
pub open spec fn mark_closed(functions: Seq<FunctionModel>, level: int, name: Seq<char>) -> Seq<
    FunctionModel,
> {
    if has_name(functions[level].closed_names, name) {
        functions
    } else {
        functions.update(
            level,
            FunctionModel {
                closed_names: functions[level].closed_names.push(name),
                ..functions[level]
            },
        )
    }
}

/// What resolving a name among the open functions comes to.
#[derive(Clone, Copy, Debug, PartialEq, Eq, Structural)]
pub enum Resolution {
    /// The name is a local of the function, or one that it captures.
    Found(VariableKind),
    /// No open function declares the name.
    Unknown,
    /// A function would capture more bindings than an instruction can name.
    Overflow,
}

/// Resolves `name` as used in the function at `level`. A declaration in an
/// open scope of that function makes it a local. Else the name is
/// resolved in the enclosing function, and what is found there is
/// captured: a local of the enclosing function is marked as captured
/// there, and either way the function at `level` gets a captured binding
/// for it. So every function between the declaration and the use carries
/// the binding.
pub open spec fn resolve_in(functions: Seq<FunctionModel>, level: int, name: Seq<char>) -> (
    Seq<FunctionModel>,
    Resolution,
)
    decreases level,
{
    if level < 0 || level >= functions.len() {
        (functions, Resolution::Unknown)
    } else {
        match lookup_scopes(functions[level].scopes, name) {
            Some(slot) => (functions, Resolution::Found(VariableKind::Local(slot))),
            None => if level == 0 {
                (functions, Resolution::Unknown)
            } else {
                let (outer, found) = resolve_in(functions, level - 1, name);
                match found {
                    Resolution::Found(VariableKind::Local(slot)) => match captured(
                        mark_closed(outer, level - 1, name),
                        level,
                        UpvalueDescriptor { slot, from_enclosing_upvalues: false },
                    ) {
                        Some((after, index)) => (
                            after,
                            Resolution::Found(VariableKind::Closed(index)),
                        ),
                        None => (mark_closed(outer, level - 1, name), Resolution::Overflow),
                    },
                    Resolution::Found(VariableKind::Closed(index)) => match captured(
                        outer,
                        level,
                        UpvalueDescriptor { slot: index, from_enclosing_upvalues: true },
                    ) {
                        Some((after, index)) => (
                            after,
                            Resolution::Found(VariableKind::Closed(index)),
                        ),
                        None => (outer, Resolution::Overflow),
                    },
                    Resolution::Found(_) => (outer, Resolution::Unknown),
                    Resolution::Unknown => (outer, Resolution::Unknown),
                    Resolution::Overflow => (outer, Resolution::Overflow),
                }
            },
        }
    }
}

impl ResolverModel {
    /// The innermost open function.
    pub open spec fn current(self) -> FunctionModel {
        self.functions.last()
    }

    /// The state with `f` as the innermost open function.
    pub open spec fn with_current(self, f: FunctionModel) -> ResolverModel {
        ResolverModel { functions: self.functions.update(self.functions.len() - 1, f), ..self }
    }

    /// The state with one more frame slot in use.
    pub open spec fn bump(self) -> Result<ResolverModel, SemanticError> {
        if self.current().depth == u16::MAX {
            Err(SemanticError::TooManySlots { at: self.current().key })
        } else {
            Ok(
                self.with_current(
                    FunctionModel { depth: (self.current().depth + 1) as u16, ..self.current() },
                ),
            )
        }
    }

    /// The state with the number of frame slots in use set to `depth`.
    pub open spec fn at_depth(self, depth: u16) -> ResolverModel {
        self.with_current(FunctionModel { depth, ..self.current() })
    }

    /// The state after `name` was declared as a local: it gets the next
    /// frame slot, in the innermost open scope.
    pub open spec fn declare_local(self, name: Token) -> Result<ResolverModel, SemanticError> {
        if self.current().depth == u16::MAX {
            Err(SemanticError::TooManySlots { at: self.current().key })
        } else {
            let f = self.current();
            let binding = BindingModel { name: name.name(), slot: f.depth };
            Ok(
                ResolverModel {
                    variables: self.variables.push((name.position, VariableKind::Local(f.depth))),
                    ..self.with_current(
                        FunctionModel {
                            scopes: f.scopes.update(
                                f.scopes.len() - 1,
                                f.scopes.last().push(binding),
                            ),
                            depth: (f.depth + 1) as u16,
                            ..f
                        },
                    )
                },
            )
        }
    }

    /// The kind of `name` where it is used, and the open functions after
    /// what the use made them capture. A name that no open function
    /// declares is a builtin where the registry has it, and else a global.
    pub open spec fn kind_of(self, name: Token, builtins: Seq<Seq<char>>) -> Result<
        (Seq<FunctionModel>, VariableKind),
        SemanticError,
    > {
        let (functions, found) = resolve_in(self.functions, self.functions.len() - 1, name.name());
        match found {
            Resolution::Found(kind) => Ok((functions, kind)),
            Resolution::Overflow => Err(SemanticError::TooManySlots { at: self.current().key }),
            Resolution::Unknown => match position(builtins, name.name()) {
                Some(index) => if index <= u16::MAX {
                    Ok((functions, VariableKind::Builtin(index as u16)))
                } else {
                    Ok((functions, VariableKind::Global))
                },
                None => Ok((functions, VariableKind::Global)),
            },
        }
    }

    /// The state after a use of `name` that reads it.
    pub open spec fn refer(self, name: Token, builtins: Seq<Seq<char>>) -> Result<
        ResolverModel,
        SemanticError,
    > {
        match self.kind_of(name, builtins) {
            Ok((functions, kind)) => Ok(
                ResolverModel {
                    functions,
                    variables: self.variables.push((name.position, kind)),
                    ..self
                },
            ),
            Err(error) => Err(error),
        }
    }

    /// The state after a use of `name` that assigns to it. A builtin cannot
    /// be assigned to, and a global only where it was declared.
    pub open spec fn assign(self, name: Token, builtins: Seq<Seq<char>>) -> Result<
        ResolverModel,
        SemanticError,
    > {
        match self.kind_of(name, builtins) {
            Ok((functions, kind)) => match kind {
                VariableKind::Builtin(_) => Err(SemanticError::AssignmentToBuiltin { name }),
                VariableKind::Global => if has_name(self.globals, name.name()) {
                    Ok(
                        ResolverModel {
                            functions,
                            variables: self.variables.push((name.position, kind)),
                            ..self
                        },
                    )
                } else {
                    Err(SemanticError::AssignmentToUndefined { name })
                },
                _ => Ok(
                    ResolverModel {
                        functions,
                        variables: self.variables.push((name.position, kind)),
                        ..self
                    },
                ),
            },
            Err(error) => Err(error),
        }
    }

    /// The state after `name` was declared as a global.
    pub open spec fn declare_global(self, name: Token) -> ResolverModel {
        ResolverModel {
            globals: self.globals.push(name.name()),
            variables: self.variables.push((name.position, VariableKind::Global)),
            ..self
        }
    }

    /// The state with a new, empty scope open in the innermost function.
    pub open spec fn open_scope(self) -> ResolverModel {
        self.with_current(
            FunctionModel { scopes: self.current().scopes.push(Seq::empty()), ..self.current() },
        )
    }

    /// The state after the innermost scope was closed and the frame slots
    /// in use went back to `depth`.
    pub open spec fn close_scope(self, depth: u16) -> ResolverModel {
        self.with_current(
            FunctionModel { scopes: self.current().scopes.drop_last(), depth, ..self.current() },
        )
    }

    /// The state after the block that starts at `begin` was closed: the
    /// number of its locals is kept, and its scope is closed.
    pub open spec fn close_block(self, begin: Position, depth: u16) -> ResolverModel {
        ResolverModel {
            blocks: self.blocks.push((begin, self.current().scopes.last().len() as u16)),
            ..self.close_scope(depth)
        }
    }

    /// The state with a new function open, which has the callee in its
    /// first frame slot and nothing declared.
    pub open spec fn open_function(self, key: Position) -> ResolverModel {
        ResolverModel {
            functions: self.functions.push(
                FunctionModel {
                    key,
                    scopes: seq![Seq::empty()],
                    depth: 1,
                    upvalues: Seq::empty(),
                    closed_names: Seq::empty(),
                },
            ),
            ..self
        }
    }

    /// The state after the innermost function was closed: what it captures
    /// and which of its locals are captured is kept under its key.
    pub open spec fn close_function(self) -> ResolverModel {
        ResolverModel {
            functions: self.functions.drop_last(),
            infos: self.infos.push(
                (
                    self.current().key,
                    FunctionInfoModel {
                        closed_names: self.current().closed_names,
                        upvalues: self.current().upvalues,
                    },
                ),
            ),
            ..self
        }
    }

    /// The state after the first `n` of `params` were declared as locals.
    pub open spec fn declare_all(self, params: Seq<Token>, n: nat) -> Result<
        ResolverModel,
        SemanticError,
    >
        decreases n,
    {
        if n == 0 || n > params.len() {
            Ok(self)
        } else {
            match self.declare_all(params, (n - 1) as nat) {
                Ok(declared) => declared.declare_local(params[n - 1]),
                Err(error) => Err(error),
            }
        }
    }
}

/// Analyses a function: its parameters are its first locals, and its body
/// is analysed with them declared.
pub open spec fn walk_function(
    m: ResolverModel,
    key: Position,
    params: Seq<Token>,
    body: Expr,
    builtins: Seq<Seq<char>>,
) -> Result<ResolverModel, SemanticError>
    decreases body, 1nat,
{
    match m.open_function(key).declare_all(params, params.len()) {
        Ok(declared) => match walk_expr(declared, body, builtins) {
            Ok(walked) => Ok(walked.close_function()),
            Err(error) => Err(error),
        },
        Err(error) => Err(error),
    }
}

/// Analyses an expression. The value of the expression goes to the next
/// frame slot; while its parts are analysed, the values of the parts
/// before them are in the slots from there on. Every name that is used
/// gets its kind. The scopes and the frame slots in use are afterwards
/// what they were before.
pub open spec fn walk_expr(m: ResolverModel, e: Expr, builtins: Seq<Seq<char>>) -> Result<
    ResolverModel,
    SemanticError,
>
    decreases e, 0nat,
{
    match e {
        Expr::Number(_) => Ok(m),
        Expr::ConstString(_) => Ok(m),
        Expr::Name(name) => m.refer(name, builtins),
        Expr::Binary(_, lhs, rhs) => match walk_expr(m, *lhs, builtins) {
            Ok(left) => match left.bump() {
                Ok(bumped) => match walk_expr(bumped, *rhs, builtins) {
                    Ok(right) => Ok(right.at_depth(m.current().depth)),
                    Err(error) => Err(error),
                },
                Err(error) => Err(error),
            },
            Err(error) => Err(error),
        },
        Expr::Unary(_, operand) => walk_expr(m, *operand, builtins),
        Expr::If(condition, then_branch, else_branch) => match walk_expr(m, *condition, builtins) {
            Ok(after_condition) => match walk_expr(after_condition, *then_branch, builtins) {
                Ok(after_then) => match else_branch {
                    Some(otherwise) => walk_expr(after_then, *otherwise, builtins),
                    None => Ok(after_then),
                },
                Err(error) => Err(error),
            },
            Err(error) => Err(error),
        },
        Expr::Block(begin, _, stmts) => match walk_stmts(
            m.open_scope(),
            stmts@,
            stmts@.len(),
            builtins,
        ) {
            Ok(walked) => Ok(walked.close_block(begin.position, m.current().depth)),
            Err(error) => Err(error),
        },
        Expr::SingleStatement(stmt) => match walk_stmt(m.open_scope(), *stmt, builtins) {
            Ok(walked) => Ok(walked.close_scope(m.current().depth)),
            Err(error) => Err(error),
        },
        Expr::Call(callee, args) => match walk_expr(m, *callee, builtins) {
            Ok(after_callee) => match after_callee.bump() {
                Ok(bumped) => match walk_args(bumped, args@, args@.len(), builtins) {
                    Ok(walked) => Ok(walked.at_depth(m.current().depth)),
                    Err(error) => Err(error),
                },
                Err(error) => Err(error),
            },
            Err(error) => Err(error),
        },
        Expr::PartialCall(callee, args) => match walk_expr(m, *callee, builtins) {
            Ok(after_callee) => match after_callee.bump() {
                Ok(bumped) => match walk_optional_args(bumped, args@, args@.len(), builtins) {
                    Ok(walked) => Ok(walked.at_depth(m.current().depth)),
                    Err(error) => Err(error),
                },
                Err(error) => Err(error),
            },
            Err(error) => Err(error),
        },
        Expr::PropertyAccess(target, _) => walk_expr(m, *target, builtins),
        Expr::PropertyTest(target, _) => walk_expr(m, *target, builtins),
        Expr::AnonFunction(args, vararg, arrow, body) => walk_function(
            m,
            arrow.position,
            all_params(args@, vararg),
            *body,
            builtins,
        ),
    }
}

/// Analyses a statement. A declaration of a variable or of a function
/// takes the next frame slot for good; any other statement leaves the
/// frame slots in use as they were.
pub open spec fn walk_stmt(m: ResolverModel, s: Stmt, builtins: Seq<Seq<char>>) -> Result<
    ResolverModel,
    SemanticError,
>
    decreases s, 0nat,
{
    match s {
        Stmt::Print(_, e) => walk_expr(m, e, builtins),
        Stmt::VarDeclaration(name, initializer) => {
            let walked = match initializer {
                Some(e) => walk_expr(m, e, builtins),
                None => Ok(m),
            };
            match walked {
                Ok(after) => after.declare_local(name),
                Err(error) => Err(error),
            }
        },
        Stmt::Assignment(name, e) => match walk_expr(m, e, builtins) {
            Ok(after) => after.assign(name, builtins),
            Err(error) => Err(error),
        },
        Stmt::PropertyAssignment(target, e) => match walk_expr(m, target, builtins) {
            Ok(after_target) => match after_target.bump() {
                Ok(bumped) => match walk_expr(bumped, e, builtins) {
                    Ok(walked) => Ok(walked.at_depth(m.current().depth)),
                    Err(error) => Err(error),
                },
                Err(error) => Err(error),
            },
            Err(error) => Err(error),
        },
        Stmt::Expression(e) => walk_expr(m, e, builtins),
        Stmt::Assert(_, e) => walk_expr(m, e, builtins),
        Stmt::Pass(_) => Ok(m),
        Stmt::FunctionDeclaration { name, args, vararg, body } => match m.declare_local(name) {
            Ok(declared) => walk_function(
                declared,
                name.position,
                all_params(args@, vararg),
                body,
                builtins,
            ),
            Err(error) => Err(error),
        },
        Stmt::StructDeclaration { name, fields } => Ok(m.declare_global(name)),
        Stmt::EnumDeclaration { name, variants } => Ok(m.declare_global(name)),
        Stmt::ImplBlock { name, implementations } => match m.refer(name, builtins) {
            Ok(referred) => match referred.bump() {
                Ok(bumped) => match walk_methods(
                    bumped,
                    implementations@,
                    implementations@.len(),
                    builtins,
                ) {
                    Ok(walked) => Ok(walked.at_depth(m.current().depth)),
                    Err(error) => Err(error),
                },
                Err(error) => Err(error),
            },
            Err(error) => Err(error),
        },
    }
}

/// Analyses the first `n` of `stmts` in order.
pub open spec fn walk_stmts(m: ResolverModel, stmts: Seq<Stmt>, n: nat, builtins: Seq<Seq<char>>) -> Result<
    ResolverModel,
    SemanticError,
>
    decreases stmts, n,
{
    if n == 0 || n > stmts.len() {
        Ok(m)
    } else {
        match walk_stmts(m, stmts, (n - 1) as nat, builtins) {
            Ok(after) => walk_stmt(after, stmts[n - 1], builtins),
            Err(error) => Err(error),
        }
    }
}

/// Analyses the first `n` arguments of a call in order; each takes one
/// more frame slot.
pub open spec fn walk_args(m: ResolverModel, args: Seq<Expr>, n: nat, builtins: Seq<Seq<char>>) -> Result<
    ResolverModel,
    SemanticError,
>
    decreases args, n,
{
    if n == 0 || n > args.len() {
        Ok(m)
    } else {
        match walk_args(m, args, (n - 1) as nat, builtins) {
            Ok(after) => match walk_expr(after, args[n - 1], builtins) {
                Ok(walked) => walked.bump(),
                Err(error) => Err(error),
            },
            Err(error) => Err(error),
        }
    }
}

/// Analyses the first `n` arguments of a partial call in order; each takes
/// one more frame slot, a hole too.
pub open spec fn walk_optional_args(
    m: ResolverModel,
    args: Seq<Option<Expr>>,
    n: nat,
    builtins: Seq<Seq<char>>,
) -> Result<ResolverModel, SemanticError>
    decreases args, n,
{
    if n == 0 || n > args.len() {
        Ok(m)
    } else {
        match walk_optional_args(m, args, (n - 1) as nat, builtins) {
            Ok(after) => match args[n - 1] {
                Some(arg) => match walk_expr(after, arg, builtins) {
                    Ok(walked) => walked.bump(),
                    Err(error) => Err(error),
                },
                None => after.bump(),
            },
            Err(error) => Err(error),
        }
    }
}

/// Analyses the first `n` methods of an implementation block in order.
/// What is no function declaration is passed over.
pub open spec fn walk_methods(m: ResolverModel, methods: Seq<Stmt>, n: nat, builtins: Seq<Seq<char>>) -> Result<
    ResolverModel,
    SemanticError,
>
    decreases methods, n,
{
    if n == 0 || n > methods.len() {
        Ok(m)
    } else {
        match walk_methods(m, methods, (n - 1) as nat, builtins) {
            Ok(after) => match methods[n - 1] {
                Stmt::FunctionDeclaration { name, args, vararg, body } => walk_function(
                    after,
                    name.position,
                    all_params(args@, vararg),
                    body,
                    builtins,
                ),
                _ => Ok(after),
            },
            Err(error) => Err(error),
        }
    }
}

/// The key of the program as a function: the position of its first token.
pub open spec fn program_key(program: Expr) -> Position {
    match program {
        Expr::Block(begin, _, _) => begin.position,
        _ => Position { line: 0, column: 0 },
    }
}

/// The state before anything is analysed.
pub open spec fn initial_model() -> ResolverModel {
    ResolverModel {
        functions: Seq::empty(),
        variables: Seq::empty(),
        infos: Seq::empty(),
        blocks: Seq::empty(),
        globals: Seq::empty(),
    }
}

/// Analyses a program, which is the body of a function without parameters.
pub open spec fn walk_program(program: Expr, builtins: Seq<Seq<char>>) -> Result<
    ResolverModel,
    SemanticError,
> {
    walk_function(initial_model(), program_key(program), Seq::empty(), program, builtins)
}

/// What the analysis keeps of a function: the names of its locals that
/// inner functions capture, and where it finds each binding that it
/// captures itself when it is made.
pub struct FunctionInfo {
    pub closed_names: Vec<String>,
    pub upvalues: Vec<UpvalueDescriptor>,
}

impl FunctionInfo {
    pub open spec fn model(self) -> FunctionInfoModel {
        FunctionInfoModel { closed_names: texts(self.closed_names@), upvalues: self.upvalues@ }
    }
}

/// The table that the analysis hands to the compiler. Each entry is found
/// by the position of a token: the kind of a name by the name's position,
/// a function by the position of its name, of its arrow or of the
/// program's first token, and the number of locals of a block by the
/// position of the block's first token.
pub struct Annotations {
    pub variables: Vec<(Position, VariableKind)>,
    pub functions: Vec<(Position, FunctionInfo)>,
    pub blocks: Vec<(Position, u16)>,
}

/// The functions of a table as plain values.
pub open spec fn infos_model(infos: Seq<(Position, FunctionInfo)>) -> Seq<
    (Position, FunctionInfoModel),
> {
    Seq::new(infos.len(), |i: int| (infos[i].0, infos[i].1.model()))
}

/// The analysis of names.
pub struct Resolver {
    pub functions: Vec<FunctionScope>,
    pub annotations: Annotations,
    pub globals: Vec<String>,
}

/// Finds the slot of the latest declaration of `name` in a scope.
fn find_in_scope(scope: &Vec<Binding>, name: &String) -> (slot: Option<u16>)
    ensures
        slot == lookup_scope(scope_model(*scope), name@),
{
    let mut i: usize = scope.len();
    let ghost model = scope_model(*scope);
    proof {
        assert(model.subrange(0, i as int) =~= model);
    }
    while i > 0
        invariant
            i <= scope.len(),
            model == scope_model(*scope),
            lookup_scope(model, name@) == lookup_scope(model.subrange(0, i as int), name@),
        decreases i,
    {
        i -= 1;
        proof {
            assert(model.subrange(0, i + 1).last() == model[i as int]);
            assert(model.subrange(0, i + 1).drop_last() =~= model.subrange(0, i as int));
        }
        if scope[i].name == *name {
            return Some(scope[i].slot);
        }
    }
    None
}

/// Finds the slot that `name` resolves to in the open scopes of a function.
fn find_in_scopes(f: &FunctionScope, name: &String) -> (slot: Option<u16>)
    ensures
        slot == lookup_scopes(f.model().scopes, name@),
{
    let mut i: usize = f.scopes.len();
    let ghost model = f.model().scopes;
    proof {
        assert(model.subrange(0, i as int) =~= model);
    }
    while i > 0
        invariant
            i <= f.scopes.len(),
            model == f.model().scopes,
            lookup_scopes(model, name@) == lookup_scopes(model.subrange(0, i as int), name@),
        decreases i,
    {
        i -= 1;
        proof {
            assert(model.subrange(0, i + 1).last() == model[i as int]);
            assert(model.subrange(0, i + 1).drop_last() =~= model.subrange(0, i as int));
        }
        match find_in_scope(&f.scopes[i], name) {
            Some(slot) => {
                return Some(slot);
            },
            None => {},
        }
    }
    None
}

/// Whether `name` is among `names`.
pub fn holds_name(names: &Vec<String>, name: &String) -> (found: bool)
    ensures
        found == has_name(texts(names@), name@),
{
    let mut i: usize = 0;
    while i < names.len()
        invariant
            i <= names.len(),
            forall|j: int| 0 <= j < i ==> #[trigger] texts(names@)[j] != name@,
        decreases names.len() - i,
    {
        if names[i] == *name {
            proof {
                lemma_position(texts(names@), name@);
                assert(texts(names@)[i as int] == name@);
            }
            return true;
        }
        assert(texts(names@)[i as int] != name@);
        i += 1;
    }
    proof {
        lemma_position(texts(names@), name@);
        if position(texts(names@), name@) is Some {
            let k = position(texts(names@), name@)->Some_0;
            assert(texts(names@)[k] != name@);
        }
    }
    false
}

/// Finds the index of a captured binding.
fn find_upvalue(upvalues: &Vec<UpvalueDescriptor>, descriptor: UpvalueDescriptor) -> (index: Option<
    usize,
>)
    ensures
        index is Some == upvalue_index(upvalues@, descriptor) is Some,
        index is Some ==> index->Some_0 as int == upvalue_index(upvalues@, descriptor)->Some_0
            && index->Some_0 < upvalues@.len(),
{
    let mut i: usize = 0;
    proof {
        assert(upvalues@.subrange(0, 0) =~= Seq::<UpvalueDescriptor>::empty());
    }
    while i < upvalues.len()
        invariant
            i <= upvalues.len(),
            upvalue_index(upvalues@.subrange(0, i as int), descriptor) is None,
        decreases upvalues.len() - i,
    {
        proof {
            assert(upvalues@.subrange(0, i + 1).drop_last() =~= upvalues@.subrange(0, i as int));
            assert(upvalues@.subrange(0, i + 1).last() == upvalues@[i as int]);
        }
        if upvalues[i].slot == descriptor.slot && upvalues[i].from_enclosing_upvalues
            == descriptor.from_enclosing_upvalues {
            proof {
                lemma_upvalue_index_prefix(upvalues@, descriptor, i + 1);
            }
            return Some(i);
        }
        i += 1;
    }
    proof {
        assert(upvalues@.subrange(0, i as int) =~= upvalues@);
    }
    None
}

proof fn lemma_upvalue_index_prefix(upvalues: Seq<UpvalueDescriptor>, descriptor: UpvalueDescriptor, k: int)
    requires
        0 <= k <= upvalues.len(),
        upvalue_index(upvalues.subrange(0, k), descriptor) is Some,
    ensures
        upvalue_index(upvalues, descriptor) == upvalue_index(upvalues.subrange(0, k), descriptor),
    decreases upvalues.len() - k,
{
    if k < upvalues.len() {
        assert(upvalues.subrange(0, k + 1).drop_last() =~= upvalues.subrange(0, k));
        lemma_upvalue_index_prefix(upvalues, descriptor, k + 1);
    } else {
        assert(upvalues.subrange(0, k) =~= upvalues);
    }
}

impl Resolver {
    /// The state of the analysis as plain values.
    pub open spec fn model(&self) -> ResolverModel {
        ResolverModel {
            functions: functions_model(self.functions@),
            variables: self.annotations.variables@,
            infos: infos_model(self.annotations.functions@),
            blocks: self.annotations.blocks@,
            globals: texts(self.globals@),
        }
    }

    /// Whether `self` differs from `before` in its open functions only.
    pub open spec fn only_functions_changed(&self, before: &Resolver) -> bool {
        &&& self.annotations == before.annotations
        &&& self.globals == before.globals
    }

    fn mark_closed(&mut self, level: usize, name: &String)
        requires
            level < old(self).functions@.len(),
        ensures
            final(self).only_functions_changed(old(self)),
            final(self).same_shape(old(self)),
            functions_model(final(self).functions@) == mark_closed(
                functions_model(old(self).functions@),
                level as int,
                name@,
            ),
    {
        if !holds_name(&self.functions[level].closed_names, name) {
            self.functions[level].closed_names.push(name.clone());
            proof {
                let before = functions_model(old(self).functions@);
                let after = functions_model(self.functions@);
                assert(self.functions@[level as int].model().closed_names =~= before[level as int].closed_names.push(
                    name@,
                ));
                assert(self.functions@[level as int].model().scopes
                    =~= before[level as int].scopes);
                assert(after =~= before.update(
                    level as int,
                    FunctionModel {
                        closed_names: before[level as int].closed_names.push(name@),
                        ..before[level as int]
                    },
                ));
            }
        } else {
            assert(functions_model(self.functions@) =~= functions_model(old(self).functions@));
        }
    }

    fn capture(&mut self, level: usize, descriptor: UpvalueDescriptor) -> (index: Option<u16>)
        requires
            level < old(self).functions@.len(),
        ensures
            final(self).only_functions_changed(old(self)),
            final(self).same_shape(old(self)),
            captured(functions_model(old(self).functions@), level as int, descriptor) is None
                ==> index is None && functions_model(final(self).functions@) == functions_model(
                old(self).functions@,
            ),
            captured(functions_model(old(self).functions@), level as int, descriptor) matches Some(
                (after, found),
            ) ==> index == Some(found) && functions_model(final(self).functions@) == after,
    {
        let ghost before = functions_model(old(self).functions@);
        match find_upvalue(&self.functions[level].upvalues, descriptor) {
            Some(i) => {
                assert(functions_model(self.functions@) =~= before);
                Some(i as u16)
            },
            None => {
                let count = self.functions[level].upvalues.len();
                if count >= u16::MAX as usize {
                    assert(functions_model(self.functions@) =~= before);
                    return None;
                }
                self.functions[level].upvalues.push(descriptor);
                proof {
                    let after = functions_model(self.functions@);
                    assert(self.functions@[level as int].model().scopes
                        =~= before[level as int].scopes);
                    assert(after =~= before.update(
                        level as int,
                        FunctionModel {
                            upvalues: before[level as int].upvalues.push(descriptor),
                            ..before[level as int]
                        },
                    ));
                }
                Some(count as u16)
            },
        }
    }

    fn resolve_in(&mut self, level: usize, name: &String) -> (found: Resolution)
        requires
            level < old(self).functions@.len(),
        ensures
            final(self).only_functions_changed(old(self)),
            final(self).same_shape(old(self)),
            (functions_model(final(self).functions@), found) == resolve_in(
                functions_model(old(self).functions@),
                level as int,
                name@,
            ),
        decreases level,
    {
        match find_in_scopes(&self.functions[level], name) {
            Some(slot) => {
                return Resolution::Found(VariableKind::Local(slot));
            },
            None => {},
        }
        if level == 0 {
            return Resolution::Unknown;
        }
        let outer = self.resolve_in(level - 1, name);
        match outer {
            Resolution::Found(VariableKind::Local(slot)) => {
                self.mark_closed(level - 1, name);
                match self.capture(
                    level,
                    UpvalueDescriptor { slot, from_enclosing_upvalues: false },
                ) {
                    Some(index) => Resolution::Found(VariableKind::Closed(index)),
                    None => Resolution::Overflow,
                }
            },
            Resolution::Found(VariableKind::Closed(index)) => {
                match self.capture(
                    level,
                    UpvalueDescriptor { slot: index, from_enclosing_upvalues: true },
                ) {
                    Some(index) => Resolution::Found(VariableKind::Closed(index)),
                    None => Resolution::Overflow,
                }
            },
            Resolution::Found(_) => Resolution::Unknown,
            Resolution::Unknown => Resolution::Unknown,
            Resolution::Overflow => Resolution::Overflow,
        }
    }

    fn bump(&mut self) -> (result: Result<(), SemanticError>)
        requires
            old(self).functions@.len() > 0,
        ensures
            final(self).same_shape(old(self)),
            old(self).model().bump() matches Ok(m) ==> result is Ok && final(self).model() == m,
            old(self).model().bump() matches Err(error) ==> result == Err::<(), SemanticError>(
                error,
            ),
    {
        let last = self.functions.len() - 1;
        let depth = self.functions[last].depth;
        if depth == u16::MAX {
            return Err(SemanticError::TooManySlots { at: self.functions[last].key });
        }
        self.set_depth(depth + 1);
        Ok(())
    }

    fn set_depth(&mut self, depth: u16)
        requires
            old(self).functions@.len() > 0,
        ensures
            final(self).same_shape(old(self)),
            final(self).model() == old(self).model().at_depth(depth),
    {
        let last = self.functions.len() - 1;
        self.functions[last].depth = depth;
        proof {
            let before = old(self).model();
            assert(self.functions@[last as int].model().scopes =~= before.current().scopes);
            assert(self.model().functions =~= before.at_depth(depth).functions);
        }
    }

    fn declare_local(&mut self, name: &Token) -> (result: Result<(), SemanticError>)
        requires
            old(self).functions@.len() > 0,
            old(self).functions@.last().scopes@.len() > 0,
        ensures
            final(self).same_shape(old(self)),
            old(self).model().declare_local(*name) matches Ok(m) ==> result is Ok && final(self).model() == m,
            old(self).model().declare_local(*name) matches Err(error) ==> result == Err::<
                (),
                SemanticError,
            >(error),
    {
        let last = self.functions.len() - 1;
        let depth = self.functions[last].depth;
        if depth == u16::MAX {
            return Err(SemanticError::TooManySlots { at: self.functions[last].key });
        }
        let inner = self.functions[last].scopes.len() - 1;
        let mut scope = self.functions[last].scopes.pop().unwrap();
        scope.push(Binding { name: name.name_string(), slot: depth });
        self.functions[last].scopes.push(scope);
        self.functions[last].depth = depth + 1;
        self.annotations.variables.push((name.position, VariableKind::Local(depth)));
        proof {
            let before = old(self).model();
            let f = before.current();
            let binding = BindingModel { name: name.name(), slot: depth };
            assert(scope_model(scope) =~= f.scopes.last().push(binding));
            assert(self.functions@[last as int].model().scopes =~= f.scopes.update(
                f.scopes.len() - 1,
                f.scopes.last().push(binding),
            ));
            assert(self.model().functions =~= before.declare_local(*name)->Ok_0.functions);
        }
        Ok(())
    }

    fn kind_of(&mut self, name: &Token, builtins: &BuiltinMap) -> (result: Result<
        VariableKind,
        SemanticError,
    >)
        requires
            old(self).functions@.len() > 0,
            builtins.wf(),
        ensures
            final(self).same_shape(old(self)),
            final(self).only_functions_changed(old(self)),
            old(self).model().kind_of(*name, builtins.function_names()) matches Ok((functions, kind))
                ==> result == Ok::<VariableKind, SemanticError>(kind) && functions_model(
                final(self).functions@,
            ) == functions,
            old(self).model().kind_of(*name, builtins.function_names()) matches Err(error)
                ==> result == Err::<VariableKind, SemanticError>(error),
    {
        let last = self.functions.len() - 1;
        let text = name.name_string();
        let key = self.functions[last].key;
        match self.resolve_in(last, &text) {
            Resolution::Found(kind) => Ok(kind),
            Resolution::Overflow => Err(SemanticError::TooManySlots { at: key }),
            Resolution::Unknown => match builtins.get_builtin(text.as_str()) {
                Some(crate::data::objects::Value::Builtin(index)) => if index <= u16::MAX as usize {
                    Ok(VariableKind::Builtin(index as u16))
                } else {
                    Ok(VariableKind::Global)
                },
                _ => Ok(VariableKind::Global),
            },
        }
    }

    fn refer(&mut self, name: &Token, builtins: &BuiltinMap) -> (result: Result<(), SemanticError>)
        requires
            old(self).functions@.len() > 0,
            builtins.wf(),
        ensures
            final(self).same_shape(old(self)),
            old(self).model().refer(*name, builtins.function_names()) matches Ok(m) ==> result is Ok
                && final(self).model() == m,
            old(self).model().refer(*name, builtins.function_names()) matches Err(error) ==> result
                == Err::<(), SemanticError>(error),
    {
        match self.kind_of(name, builtins) {
            Ok(kind) => {
                self.annotations.variables.push((name.position, kind));
                Ok(())
            },
            Err(error) => Err(error),
        }
    }

    fn assign(&mut self, name: &Token, builtins: &BuiltinMap) -> (result: Result<(), SemanticError>)
        requires
            old(self).functions@.len() > 0,
            builtins.wf(),
        ensures
            final(self).same_shape(old(self)),
            old(self).model().assign(*name, builtins.function_names()) matches Ok(m) ==> result is Ok
                && final(self).model() == m,
            old(self).model().assign(*name, builtins.function_names()) matches Err(error)
                ==> result == Err::<(), SemanticError>(error),
    {
        match self.kind_of(name, builtins) {
            Ok(kind) => {
                match kind {
                    VariableKind::Builtin(_) => {
                        return Err(SemanticError::AssignmentToBuiltin { name: name.clone() });
                    },
                    VariableKind::Global => {
                        let text = name.name_string();
                        if !holds_name(&self.globals, &text) {
                            return Err(SemanticError::AssignmentToUndefined { name: name.clone() });
                        }
                    },
                    _ => {},
                }
                self.annotations.variables.push((name.position, kind));
                Ok(())
            },
            Err(error) => Err(error),
        }
    }

    fn declare_global(&mut self, name: &Token)
        ensures
            final(self).same_shape(old(self)),
            final(self).model() == old(self).model().declare_global(*name),
    {
        self.globals.push(name.name_string());
        self.annotations.variables.push((name.position, VariableKind::Global));
        proof {
            assert(texts(self.globals@) =~= texts(old(self).globals@).push(name.name()));
        }
    }

    fn open_scope(&mut self)
        requires
            old(self).functions@.len() > 0,
        ensures
            final(self).functions@.len() == old(self).functions@.len(),
            final(self).functions@.last().scopes@.len() == old(self).functions@.last().scopes@.len()
                + 1,
            forall|i: int|
                0 <= i < final(self).functions@.len() - 1 ==> (
                #[trigger] final(self).functions@[i]).scopes@.len()
                    == old(self).functions@[i].scopes@.len(),
            final(self).model() == old(self).model().open_scope(),
    {
        let last = self.functions.len() - 1;
        self.functions[last].scopes.push(Vec::new());
        proof {
            let before = old(self).model();
            assert(scope_model(self.functions@[last as int].scopes@.last()) =~= Seq::<
                BindingModel,
            >::empty());
            assert(self.functions@[last as int].model().scopes =~= before.current().scopes.push(
                Seq::empty(),
            ));
            assert(self.model().functions =~= before.open_scope().functions);
        }
    }

    fn close_scope(&mut self, depth: u16) -> (count: usize)
        requires
            old(self).functions@.len() > 0,
            old(self).functions@.last().scopes@.len() > 0,
        ensures
            final(self).functions@.len() == old(self).functions@.len(),
            final(self).functions@.last().scopes@.len() == old(self).functions@.last().scopes@.len()
                - 1,
            forall|i: int|
                0 <= i < final(self).functions@.len() - 1 ==> (
                #[trigger] final(self).functions@[i]).scopes@.len()
                    == old(self).functions@[i].scopes@.len(),
            final(self).model() == old(self).model().close_scope(depth),
            count == old(self).model().current().scopes.last().len(),
    {
        let last = self.functions.len() - 1;
        let scope = self.functions[last].scopes.pop().unwrap();
        self.functions[last].depth = depth;
        proof {
            let before = old(self).model();
            assert(self.functions@[last as int].model().scopes
                =~= before.current().scopes.drop_last());
            assert(self.model().functions =~= before.close_scope(depth).functions);
            assert(scope_model(scope) == before.current().scopes.last());
        }
        scope.len()
    }

    fn close_block(&mut self, begin: Position, depth: u16)
        requires
            old(self).functions@.len() > 0,
            old(self).functions@.last().scopes@.len() > 0,
        ensures
            final(self).functions@.len() == old(self).functions@.len(),
            final(self).functions@.last().scopes@.len() == old(self).functions@.last().scopes@.len()
                - 1,
            forall|i: int|
                0 <= i < final(self).functions@.len() - 1 ==> (
                #[trigger] final(self).functions@[i]).scopes@.len()
                    == old(self).functions@[i].scopes@.len(),
            final(self).model() == old(self).model().close_block(begin, depth),
    {
        let count = self.close_scope(depth);
        self.annotations.blocks.push((begin, count as u16));
    }

    fn open_function(&mut self, key: Position)
        ensures
            final(self).functions@.len() == old(self).functions@.len() + 1,
            final(self).functions@.last().scopes@.len() == 1,
            final(self).functions@.drop_last() == old(self).functions@,
            final(self).model() == old(self).model().open_function(key),
    {
        let mut scopes: Vec<Vec<Binding>> = Vec::new();
        scopes.push(Vec::new());
        self.functions.push(
            FunctionScope {
                key,
                scopes,
                depth: 1,
                upvalues: Vec::new(),
                closed_names: Vec::new(),
            },
        );
        proof {
            let before = old(self).model();
            let f = self.functions@.last().model();
            assert(scope_model(self.functions@.last().scopes@[0]) =~= Seq::<BindingModel>::empty());
            assert(f.scopes =~= seq![Seq::<BindingModel>::empty()]);
            assert(f.closed_names =~= Seq::<Seq<char>>::empty());
            assert(self.functions@.drop_last() =~= old(self).functions@);
            assert(self.model().functions =~= before.open_function(key).functions);
        }
    }

    fn close_function(&mut self)
        requires
            old(self).functions@.len() > 0,
        ensures
            final(self).functions@ == old(self).functions@.drop_last(),
            final(self).model() == old(self).model().close_function(),
    {
        let f = self.functions.pop().unwrap();
        self.annotations.functions.push(
            (f.key, FunctionInfo { closed_names: f.closed_names, upvalues: f.upvalues }),
        );
        proof {
            let before = old(self).model();
            assert(self.model().functions =~= before.functions.drop_last());
            assert(self.model().infos =~= before.close_function().infos);
        }
    }

    fn declare_parameters(&mut self, args: &Vec<Token>, vararg: Option<&Token>) -> (result: Result<
        (),
        SemanticError,
    >)
        requires
            old(self).functions@.len() > 0,
            old(self).functions@.last().scopes@.len() > 0,
        ensures
            final(self).same_shape(old(self)),
            old(self).model().declare_all(
                all_params(args@, clone_option(vararg)),
                all_params(args@, clone_option(vararg)).len(),
            ) matches Ok(m) ==> result is Ok && final(self).model() == m,
            old(self).model().declare_all(
                all_params(args@, clone_option(vararg)),
                all_params(args@, clone_option(vararg)).len(),
            ) matches Err(error) ==> result == Err::<(), SemanticError>(error),
    {
        let ghost params = all_params(args@, clone_option(vararg));
        let ghost start = old(self).model();
        let mut i: usize = 0;
        while i < args.len()
            invariant
                i <= args.len(),
                params == all_params(args@, clone_option(vararg)),
                self.same_shape(old(self)),
                self.functions@.len() > 0,
                self.functions@.last().scopes@.len() > 0,
                start == old(self).model(),
                start.declare_all(params, i as nat) == Ok::<ResolverModel, SemanticError>(
                    self.model(),
                ),
            decreases args.len() - i,
        {
            assert(params[i as int] == args@[i as int]);
            match self.declare_local(&args[i]) {
                Ok(_) => {},
                Err(error) => {
                    proof {
                        lemma_declare_all_fails(start, params, (i + 1) as nat, params.len());
                    }
                    return Err(error);
                },
            }
            i += 1;
        }
        match vararg {
            Some(rest) => {
                assert(params[i as int] == *rest);
                self.declare_local(rest)
            },
            None => Ok(()),
        }
    }

    /// Whether `self` has as many open functions as `before`, each with as
    /// many open scopes.
    pub open spec fn same_shape(&self, before: &Resolver) -> bool {
        &&& self.functions@.len() == before.functions@.len()
        &&& forall|i: int|
            0 <= i < self.functions@.len() ==> (#[trigger] self.functions@[i]).scopes@.len()
                == before.functions@[i].scopes@.len()
    }

    /// Whether the analysis stands inside a function with an open scope.
    pub open spec fn inside(&self) -> bool {
        self.functions@.len() > 0 && self.functions@.last().scopes@.len() > 0
    }

    /// Whether `self` stands as deep in functions and scopes as `before`.
    pub open spec fn level_with(&self, before: &Resolver) -> bool {
        self.same_shape(before)
    }

    fn visit_function(
        &mut self,
        key: Position,
        args: &Vec<Token>,
        vararg: Option<&Token>,
        body: &Expr,
        builtins: &BuiltinMap,
    ) -> (result: Result<(), SemanticError>)
        requires
            builtins.wf(),
        ensures
            walk_function(
                old(self).model(),
                key,
                all_params(args@, clone_option(vararg)),
                *body,
                builtins.function_names(),
            ) matches Ok(m) ==> result is Ok && final(self).model() == m && final(self).same_shape(
                old(self),
            ),
            walk_function(
                old(self).model(),
                key,
                all_params(args@, clone_option(vararg)),
                *body,
                builtins.function_names(),
            ) matches Err(error) ==> result == Err::<(), SemanticError>(error),
        decreases body, 1nat,
    {
        self.open_function(key);
        let ghost opened = *self;
        proof {
            assert forall|i: int| 0 <= i < old(self).functions@.len() implies (
            #[trigger] opened.functions@[i]).scopes@.len() == old(self).functions@[i].scopes@.len() by {
                assert(opened.functions@.drop_last()[i] == old(self).functions@[i]);
            }
        }
        match self.declare_parameters(args, vararg) {
            Ok(_) => {},
            Err(error) => {
                return Err(error);
            },
        }
        match self.visit_expr(body, builtins) {
            Ok(_) => {},
            Err(error) => {
                return Err(error);
            },
        }
        let ghost walked = *self;
        self.close_function();
        proof {
            assert forall|i: int| 0 <= i < self.functions@.len() implies (
            #[trigger] self.functions@[i]).scopes@.len() == old(self).functions@[i].scopes@.len() by {
                assert(self.functions@[i] == walked.functions@[i]);
            }
        }
        Ok(())
    }

    fn visit_expr(&mut self, e: &Expr, builtins: &BuiltinMap) -> (result: Result<(), SemanticError>)
        requires
            old(self).inside(),
            builtins.wf(),
        ensures
            walk_expr(old(self).model(), *e, builtins.function_names()) matches Ok(m) ==> result is Ok
                && final(self).model() == m && final(self).level_with(old(self)),
            walk_expr(old(self).model(), *e, builtins.function_names()) matches Err(error)
                ==> result == Err::<(), SemanticError>(error),
        decreases e, 0nat,
    {
        let last = self.functions.len() - 1;
        let depth = self.functions[last].depth;
        assert(depth == old(self).model().current().depth);
        match e {
            Expr::Number(_) => Ok(()),
            Expr::ConstString(_) => Ok(()),
            Expr::Name(name) => self.refer(name, builtins),
            Expr::Binary(_, lhs, rhs) => {
                match self.visit_expr(lhs, builtins) {
                    Ok(_) => {},
                    Err(error) => {
                        return Err(error);
                    },
                }
                match self.bump() {
                    Ok(_) => {},
                    Err(error) => {
                        return Err(error);
                    },
                }
                match self.visit_expr(rhs, builtins) {
                    Ok(_) => {},
                    Err(error) => {
                        return Err(error);
                    },
                }
                self.set_depth(depth);
                Ok(())
            },
            Expr::Unary(_, operand) => self.visit_expr(operand, builtins),
            Expr::If(condition, then_branch, else_branch) => {
                match self.visit_expr(condition, builtins) {
                    Ok(_) => {},
                    Err(error) => {
                        return Err(error);
                    },
                }
                match self.visit_expr(then_branch, builtins) {
                    Ok(_) => {},
                    Err(error) => {
                        return Err(error);
                    },
                }
                match else_branch {
                    Some(otherwise) => self.visit_expr(otherwise, builtins),
                    None => Ok(()),
                }
            },
            Expr::Block(begin, _, stmts) => {
                self.open_scope();
                match self.visit_stmts(stmts, builtins) {
                    Ok(_) => {},
                    Err(error) => {
                        return Err(error);
                    },
                }
                self.close_block(begin.position, depth);
                Ok(())
            },
            Expr::SingleStatement(stmt) => {
                self.open_scope();
                match self.visit_stmt(stmt, builtins) {
                    Ok(_) => {},
                    Err(error) => {
                        return Err(error);
                    },
                }
                self.close_scope(depth);
                Ok(())
            },
            Expr::Call(callee, args) => {
                match self.visit_expr(callee, builtins) {
                    Ok(_) => {},
                    Err(error) => {
                        return Err(error);
                    },
                }
                match self.bump() {
                    Ok(_) => {},
                    Err(error) => {
                        return Err(error);
                    },
                }
                match self.visit_args(args, builtins) {
                    Ok(_) => {},
                    Err(error) => {
                        return Err(error);
                    },
                }
                self.set_depth(depth);
                Ok(())
            },
            Expr::PartialCall(callee, args) => {
                match self.visit_expr(callee, builtins) {
                    Ok(_) => {},
                    Err(error) => {
                        return Err(error);
                    },
                }
                match self.bump() {
                    Ok(_) => {},
                    Err(error) => {
                        return Err(error);
                    },
                }
                match self.visit_optional_args(args, builtins) {
                    Ok(_) => {},
                    Err(error) => {
                        return Err(error);
                    },
                }
                self.set_depth(depth);
                Ok(())
            },
            Expr::PropertyAccess(target, _) => self.visit_expr(target, builtins),
            Expr::PropertyTest(target, _) => self.visit_expr(target, builtins),
            Expr::AnonFunction(args, vararg, arrow, body) => self.visit_function(
                arrow.position,
                args,
                vararg.as_ref(),
                body,
                builtins,
            ),
        }
    }

    fn visit_stmt(&mut self, s: &Stmt, builtins: &BuiltinMap) -> (result: Result<(), SemanticError>)
        requires
            old(self).inside(),
            builtins.wf(),
        ensures
            walk_stmt(old(self).model(), *s, builtins.function_names()) matches Ok(m) ==> result is Ok
                && final(self).model() == m && final(self).level_with(old(self)),
            walk_stmt(old(self).model(), *s, builtins.function_names()) matches Err(error)
                ==> result == Err::<(), SemanticError>(error),
        decreases s, 0nat,
    {
        let last = self.functions.len() - 1;
        let depth = self.functions[last].depth;
        assert(depth == old(self).model().current().depth);
        match s {
            Stmt::Print(_, e) => self.visit_expr(e, builtins),
            Stmt::VarDeclaration(name, initializer) => {
                match initializer {
                    Some(e) => match self.visit_expr(e, builtins) {
                        Ok(_) => {},
                        Err(error) => {
                            return Err(error);
                        },
                    },
                    None => {},
                }
                self.declare_local(name)
            },
            Stmt::Assignment(name, e) => {
                match self.visit_expr(e, builtins) {
                    Ok(_) => {},
                    Err(error) => {
                        return Err(error);
                    },
                }
                self.assign(name, builtins)
            },
            Stmt::PropertyAssignment(target, e) => {
                match self.visit_expr(target, builtins) {
                    Ok(_) => {},
                    Err(error) => {
                        return Err(error);
                    },
                }
                match self.bump() {
                    Ok(_) => {},
                    Err(error) => {
                        return Err(error);
                    },
                }
                match self.visit_expr(e, builtins) {
                    Ok(_) => {},
                    Err(error) => {
                        return Err(error);
                    },
                }
                self.set_depth(depth);
                Ok(())
            },
            Stmt::Expression(e) => self.visit_expr(e, builtins),
            Stmt::Assert(_, e) => self.visit_expr(e, builtins),
            Stmt::Pass(_) => Ok(()),
            Stmt::FunctionDeclaration { name, args, vararg, body } => {
                match self.declare_local(name) {
                    Ok(_) => {},
                    Err(error) => {
                        return Err(error);
                    },
                }
                self.visit_function(name.position, args, vararg.as_ref(), body, builtins)
            },
            Stmt::StructDeclaration { name, fields } => {
                self.declare_global(name);
                Ok(())
            },
            Stmt::EnumDeclaration { name, variants } => {
                self.declare_global(name);
                Ok(())
            },
            Stmt::ImplBlock { name, implementations } => {
                match self.refer(name, builtins) {
                    Ok(_) => {},
                    Err(error) => {
                        return Err(error);
                    },
                }
                match self.bump() {
                    Ok(_) => {},
                    Err(error) => {
                        return Err(error);
                    },
                }
                match self.visit_methods(implementations, builtins) {
                    Ok(_) => {},
                    Err(error) => {
                        return Err(error);
                    },
                }
                self.set_depth(depth);
                Ok(())
            },
        }
    }

    fn visit_stmts(&mut self, stmts: &Vec<Stmt>, builtins: &BuiltinMap) -> (result: Result<
        (),
        SemanticError,
    >)
        requires
            old(self).inside(),
            builtins.wf(),
        ensures
            walk_stmts(old(self).model(), stmts@, stmts@.len(), builtins.function_names())
                matches Ok(m) ==> result is Ok && final(self).model() == m && final(self).level_with(
                old(self),
            ),
            walk_stmts(old(self).model(), stmts@, stmts@.len(), builtins.function_names())
                matches Err(error) ==> result == Err::<(), SemanticError>(error),
        decreases stmts, 1nat,
    {
        let ghost start = old(self).model();
        let mut i: usize = 0;
        while i < stmts.len()
            invariant
                i <= stmts.len(),
                self.inside(),
                self.level_with(old(self)),
                builtins.wf(),
                start == old(self).model(),
                walk_stmts(start, stmts@, i as nat, builtins.function_names()) == Ok::<
                    ResolverModel,
                    SemanticError,
                >(self.model()),
            decreases stmts.len() - i,
        {
            match self.visit_stmt(&stmts[i], builtins) {
                Ok(_) => {},
                Err(error) => {
                    proof {
                        lemma_walk_stmts_fails(
                            start,
                            stmts@,
                            (i + 1) as nat,
                            stmts@.len(),
                            builtins.function_names(),
                        );
                    }
                    return Err(error);
                },
            }
            i += 1;
        }
        Ok(())
    }

    fn visit_args(&mut self, args: &Vec<Expr>, builtins: &BuiltinMap) -> (result: Result<
        (),
        SemanticError,
    >)
        requires
            old(self).inside(),
            builtins.wf(),
        ensures
            walk_args(old(self).model(), args@, args@.len(), builtins.function_names()) matches Ok(m)
                ==> result is Ok && final(self).model() == m && final(self).level_with(old(self)),
            walk_args(old(self).model(), args@, args@.len(), builtins.function_names())
                matches Err(error) ==> result == Err::<(), SemanticError>(error),
        decreases args, 1nat,
    {
        let ghost start = old(self).model();
        let mut i: usize = 0;
        while i < args.len()
            invariant
                i <= args.len(),
                self.inside(),
                self.level_with(old(self)),
                builtins.wf(),
                start == old(self).model(),
                walk_args(start, args@, i as nat, builtins.function_names()) == Ok::<
                    ResolverModel,
                    SemanticError,
                >(self.model()),
            decreases args.len() - i,
        {
            let outcome = match self.visit_expr(&args[i], builtins) {
                Ok(_) => self.bump(),
                Err(error) => Err(error),
            };
            match outcome {
                Ok(_) => {},
                Err(error) => {
                    proof {
                        lemma_walk_args_fails(
                            start,
                            args@,
                            (i + 1) as nat,
                            args@.len(),
                            builtins.function_names(),
                        );
                    }
                    return Err(error);
                },
            }
            i += 1;
        }
        Ok(())
    }

    fn visit_optional_args(&mut self, args: &Vec<Option<Expr>>, builtins: &BuiltinMap) -> (result:
        Result<(), SemanticError>)
        requires
            old(self).inside(),
            builtins.wf(),
        ensures
            walk_optional_args(old(self).model(), args@, args@.len(), builtins.function_names())
                matches Ok(m) ==> result is Ok && final(self).model() == m && final(self).level_with(
                old(self),
            ),
            walk_optional_args(old(self).model(), args@, args@.len(), builtins.function_names())
                matches Err(error) ==> result == Err::<(), SemanticError>(error),
        decreases args, 1nat,
    {
        let ghost start = old(self).model();
        let mut i: usize = 0;
        while i < args.len()
            invariant
                i <= args.len(),
                self.inside(),
                self.level_with(old(self)),
                builtins.wf(),
                start == old(self).model(),
                walk_optional_args(start, args@, i as nat, builtins.function_names()) == Ok::<
                    ResolverModel,
                    SemanticError,
                >(self.model()),
            decreases args.len() - i,
        {
            let outcome = match &args[i] {
                Some(arg) => {
                    proof {
                        assert(decreases_to!(args => args[i as int]));
                    }
                    match self.visit_expr(arg, builtins) {
                        Ok(_) => self.bump(),
                        Err(error) => Err(error),
                    }
                },
                None => self.bump(),
            };
            match outcome {
                Ok(_) => {},
                Err(error) => {
                    proof {
                        lemma_walk_optional_args_fails(
                            start,
                            args@,
                            (i + 1) as nat,
                            args@.len(),
                            builtins.function_names(),
                        );
                    }
                    return Err(error);
                },
            }
            i += 1;
        }
        Ok(())
    }

    fn visit_methods(&mut self, methods: &Vec<Stmt>, builtins: &BuiltinMap) -> (result: Result<
        (),
        SemanticError,
    >)
        requires
            old(self).inside(),
            builtins.wf(),
        ensures
            walk_methods(old(self).model(), methods@, methods@.len(), builtins.function_names())
                matches Ok(m) ==> result is Ok && final(self).model() == m && final(self).level_with(
                old(self),
            ),
            walk_methods(old(self).model(), methods@, methods@.len(), builtins.function_names())
                matches Err(error) ==> result == Err::<(), SemanticError>(error),
        decreases methods, 1nat,
    {
        let ghost start = old(self).model();
        let mut i: usize = 0;
        while i < methods.len()
            invariant
                i <= methods.len(),
                self.inside(),
                self.level_with(old(self)),
                builtins.wf(),
                start == old(self).model(),
                walk_methods(start, methods@, i as nat, builtins.function_names()) == Ok::<
                    ResolverModel,
                    SemanticError,
                >(self.model()),
            decreases methods.len() - i,
        {
            let outcome = match &methods[i] {
                Stmt::FunctionDeclaration { name, args, vararg, body } => {
                    proof {
                        assert(decreases_to!(methods => methods[i as int]));
                    }
                    self.visit_function(name.position, args, vararg.as_ref(), body, builtins)
                },
                _ => Ok(()),
            };
            match outcome {
                Ok(_) => {},
                Err(error) => {
                    proof {
                        lemma_walk_methods_fails(
                            start,
                            methods@,
                            (i + 1) as nat,
                            methods@.len(),
                            builtins.function_names(),
                        );
                    }
                    return Err(error);
                },
            }
            i += 1;
        }
        Ok(())
    }

    /// Analyses a program: finds the kind of every name, what each function
    /// captures and which of its locals are captured, and the number of
    /// locals of each block.
    pub fn resolve(program: &Expr, builtins: &BuiltinMap) -> (result: Result<
        Annotations,
        SemanticError,
    >)
        requires
            builtins.wf(),
        ensures
            walk_program(*program, builtins.function_names()) matches Ok(m) ==> result is Ok
                && result->Ok_0.variables@ == m.variables && infos_model(result->Ok_0.functions@)
                == m.infos && result->Ok_0.blocks@ == m.blocks,
            walk_program(*program, builtins.function_names()) matches Err(error) ==> result
                == Err::<Annotations, SemanticError>(error),
    {
        let mut resolver = Resolver {
            functions: Vec::new(),
            annotations: Annotations {
                variables: Vec::new(),
                functions: Vec::new(),
                blocks: Vec::new(),
            },
            globals: Vec::new(),
        };
        proof {
            assert(resolver.model().functions =~= initial_model().functions);
            assert(resolver.model().infos =~= initial_model().infos);
            assert(resolver.model().globals =~= initial_model().globals);
        }
        let key = match program {
            Expr::Block(begin, _, _) => begin.position,
            _ => Position { line: 0, column: 0 },
        };
        let no_params: Vec<Token> = Vec::new();
        proof {
            assert(all_params(no_params@, clone_option::<Token>(None)) =~= Seq::<Token>::empty());
        }
        match resolver.visit_function(key, &no_params, None, program, builtins) {
            Ok(_) => Ok(resolver.annotations),
            Err(error) => Err(error),
        }
    }
}

/// What an optional reference refers to, as an optional value.
pub open spec fn clone_option<T>(reference: Option<&T>) -> Option<T> {
    match reference {
        Some(r) => Some(*r),
        None => None,
    }
}

proof fn lemma_declare_all_fails(m: ResolverModel, params: Seq<Token>, k: nat, n: nat)
    requires
        m.declare_all(params, k) is Err,
        k <= n <= params.len(),
    ensures
        m.declare_all(params, n) == m.declare_all(params, k),
    decreases n - k,
{
    if k < n {
        lemma_declare_all_fails(m, params, k, (n - 1) as nat);
    }
}

proof fn lemma_walk_stmts_fails(m: ResolverModel, stmts: Seq<Stmt>, k: nat, n: nat, builtins: Seq<Seq<char>>)
    requires
        walk_stmts(m, stmts, k, builtins) is Err,
        k <= n <= stmts.len(),
    ensures
        walk_stmts(m, stmts, n, builtins) == walk_stmts(m, stmts, k, builtins),
    decreases n - k,
{
    if k < n {
        lemma_walk_stmts_fails(m, stmts, k, (n - 1) as nat, builtins);
    }
}

proof fn lemma_walk_args_fails(m: ResolverModel, args: Seq<Expr>, k: nat, n: nat, builtins: Seq<Seq<char>>)
    requires
        walk_args(m, args, k, builtins) is Err,
        k <= n <= args.len(),
    ensures
        walk_args(m, args, n, builtins) == walk_args(m, args, k, builtins),
    decreases n - k,
{
    if k < n {
        lemma_walk_args_fails(m, args, k, (n - 1) as nat, builtins);
    }
}

proof fn lemma_walk_optional_args_fails(
    m: ResolverModel,
    args: Seq<Option<Expr>>,
    k: nat,
    n: nat,
    builtins: Seq<Seq<char>>,
)
    requires
        walk_optional_args(m, args, k, builtins) is Err,
        k <= n <= args.len(),
    ensures
        walk_optional_args(m, args, n, builtins) == walk_optional_args(m, args, k, builtins),
    decreases n - k,
{
    if k < n {
        lemma_walk_optional_args_fails(m, args, k, (n - 1) as nat, builtins);
    }
}

proof fn lemma_walk_methods_fails(m: ResolverModel, methods: Seq<Stmt>, k: nat, n: nat, builtins: Seq<Seq<char>>)
    requires
        walk_methods(m, methods, k, builtins) is Err,
        k <= n <= methods.len(),
    ensures
        walk_methods(m, methods, n, builtins) == walk_methods(m, methods, k, builtins),
    decreases n - k,
{
    if k < n {
        lemma_walk_methods_fails(m, methods, k, (n - 1) as nat, builtins);
    }
}

} // verus!
