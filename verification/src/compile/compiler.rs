use vstd::prelude::*;
use vstd::string::StringExecFns;
use crate::compile::checks::optimization::{operator_opcode, spec_operator_opcode};
use crate::compile::checks::resolution::{holds_name, Annotations, VariableKind};
use crate::compile::emission::{lemma_args_constants_grow, lemma_optional_args_constants_grow, lemma_stmts_constants_grow, args_constants, expr_constants, optional_args_constants, stmt_constants, stmts_constants, arity_of, args_code, binary_code, body_realizes, capture_code, closure_code, entry_at, expr_code, extends, function_ast, function_code, function_value_code, is_compilation, is_variant_of, lemma_body_stable, lemma_linked_stable, linked, load_code, methods_code, names, optional_args_code, plain, program_function, prologue_code, realizes, scope_end, slot_check, spec_first_position, spec_stmt_position, stmt_code, stmts_code, store_code, stored_shapes, textual, variant_shapes, CompileError, CompileErrorKind, Emission, Emitted, FunctionAst, Table, TextUse};
use crate::compile::checks::name_definition_check::all_params;
use crate::compile::checks::resolution::{clone_option, has_name};
use crate::execution::properties::texts;
use crate::data::gc::GC;
use crate::data::objects::{EnumDescriptor, OwnedObjectItem, StructDescriptor, Value};
use crate::execution::arity::Arity;
use crate::execution::chunk::{Chunk, Opcode, UpvalueDescriptor};
use crate::parsing::ast::{EnumVariant, Expr, Stmt};
use crate::parsing::lexer::{Position, Token, TokenKind};
use crate::text::join2;

verus! {

impl CompileError {
    /// The text of the error.
    pub open spec fn spec_to_string(&self) -> Seq<char> {
        (match self.kind {
            CompileErrorKind::MissingAnnotation => "missing annotation at ["@,
            CompileErrorKind::MalformedToken => "malformed token at ["@,
            CompileErrorKind::SlotMismatch => "slot mismatch at ["@,
            CompileErrorKind::TooManyConstants => "too many constants at ["@,
            CompileErrorKind::JumpTooFar => "jump too far at ["@,
            CompileErrorKind::InvalidAssignmentTarget => "invalid assignment target at ["@,
            CompileErrorKind::TooManyArguments => "too many arguments at ["@,
            CompileErrorKind::TooManySlots => "too many values in one function at ["@,
        }) + self.at.spec_to_string() + "]"@
    }

    pub fn to_string(&self) -> (text: String)
        ensures
            text@ == self.spec_to_string(),
    {
        let head = match self.kind {
            CompileErrorKind::MissingAnnotation => "missing annotation at [",
            CompileErrorKind::MalformedToken => "malformed token at [",
            CompileErrorKind::SlotMismatch => "slot mismatch at [",
            CompileErrorKind::TooManyConstants => "too many constants at [",
            CompileErrorKind::JumpTooFar => "jump too far at [",
            CompileErrorKind::InvalidAssignmentTarget => "invalid assignment target at [",
            CompileErrorKind::TooManyArguments => "too many arguments at [",
            CompileErrorKind::TooManySlots => "too many values in one function at [",
        };
        let mut text = join2(head, self.at.to_string().as_str());
        text.append("]");
        text
    }
}

/// A function that is being compiled: its body so far, the number of frame
/// slots in use, the names of its locals that inner functions capture, and
/// the instructions emitted so far before their constants had an index.
pub struct FunctionState {
    pub chunk: Chunk,
    pub depth: u16,
    pub closed_names: Vec<String>,
    pub emitted: Ghost<Seq<Emission>>,
}

/// The compiler: the table of the analysis, the functions that are being
/// compiled, outermost first, and for each body stored on the heap so far
/// the function that it is the compilation of.
pub struct Compiler<'a> {
    pub annotations: &'a Annotations,
    pub functions: Vec<FunctionState>,
    pub compiled: Ghost<Map<usize, FunctionAst>>,
}

/// Whether a result fails as `expected` does: a failure is the expected
/// one, unless the constants ran out before, and an expected failure is a
/// failure.
pub open spec fn fails_as<T, U>(result: Result<T, CompileError>, expected: Result<U, CompileError>) -> bool {
    &&& result matches Err(error) ==> error.kind is TooManyConstants || expected == Err::<
        U,
        CompileError,
    >(error)
    &&& expected is Err ==> result is Err
}

/// The jump `opcode` with the distance `distance`.
pub open spec fn with_distance(opcode: Opcode, distance: u16) -> Opcode {
    match opcode {
        Opcode::JumpIfFalse(_) => Opcode::JumpIfFalse(distance),
        _ => Opcode::Jump(distance),
    }
}

/// Copies names.
pub fn clone_names(names: &Vec<String>) -> (copy: Vec<String>)
    ensures
        copy@ == names@,
{
    let mut copy: Vec<String> = Vec::new();
    let mut i: usize = 0;
    while i < names.len()
        invariant
            i <= names.len(),
            copy@ == names@.subrange(0, i as int),
        decreases names.len() - i,
    {
        copy.push(names[i].clone());
        i += 1;
        assert(copy@ =~= names@.subrange(0, i as int));
    }
    assert(names@.subrange(0, i as int) =~= names@);
    copy
}

/// Copies descriptors of captured bindings.
pub fn clone_upvalues(upvalues: &Vec<UpvalueDescriptor>) -> (copy: Vec<UpvalueDescriptor>)
    ensures
        copy@ == upvalues@,
{
    let mut copy: Vec<UpvalueDescriptor> = Vec::new();
    let mut i: usize = 0;
    while i < upvalues.len()
        invariant
            i <= upvalues.len(),
            copy@ == upvalues@.subrange(0, i as int),
        decreases upvalues.len() - i,
    {
        copy.push(upvalues[i]);
        i += 1;
        assert(copy@ =~= upvalues@.subrange(0, i as int));
    }
    assert(upvalues@.subrange(0, i as int) =~= upvalues@);
    copy
}

proof fn lemma_entry_at<T>(entries: Seq<(Position, T)>, position: Position, k: int)
    requires
        0 <= k <= entries.len(),
        forall|j: int| 0 <= j < k ==> (#[trigger] entries[j]).0 != position,
        k < entries.len() ==> entries[k].0 == position,
    ensures
        entry_at(entries, position) == if k < entries.len() {
            Some(entries[k].1)
        } else {
            None
        },
    decreases k,
{
    if k > 0 {
        let rest = entries.drop_first();
        assert(entries[0].0 != position);
        assert forall|j: int| 0 <= j < k - 1 implies (#[trigger] rest[j]).0 != position by {
            assert(rest[j] == entries[j + 1]);
        }
        lemma_entry_at(rest, position, k - 1);
    }
}

impl Annotations {
    /// The kind of the name at `position`.
    pub fn variable_kind(&self, position: Position) -> (kind: Option<VariableKind>)
        ensures
            kind == entry_at(self.variables@, position),
    {
        let mut i: usize = 0;
        while i < self.variables.len()
            invariant
                i <= self.variables.len(),
                forall|j: int| 0 <= j < i ==> (#[trigger] self.variables@[j]).0 != position,
            decreases self.variables.len() - i,
        {
            if self.variables[i].0 == position {
                proof {
                    lemma_entry_at(self.variables@, position, i as int);
                }
                return Some(self.variables[i].1);
            }
            i += 1;
        }
        proof {
            lemma_entry_at(self.variables@, position, i as int);
        }
        None
    }

    /// The number of locals of the block that starts at `position`.
    pub fn block_locals(&self, position: Position) -> (count: Option<u16>)
        ensures
            count == entry_at(self.blocks@, position),
    {
        let mut i: usize = 0;
        while i < self.blocks.len()
            invariant
                i <= self.blocks.len(),
                forall|j: int| 0 <= j < i ==> (#[trigger] self.blocks@[j]).0 != position,
            decreases self.blocks.len() - i,
        {
            if self.blocks[i].0 == position {
                proof {
                    lemma_entry_at(self.blocks@, position, i as int);
                }
                return Some(self.blocks[i].1);
            }
            i += 1;
        }
        proof {
            lemma_entry_at(self.blocks@, position, i as int);
        }
        None
    }

    /// The index of the function whose key is `position`.
    pub fn function_index(&self, position: Position) -> (index: Option<usize>)
        ensures
            index is Some ==> index->Some_0 < self.functions@.len()
                && self.functions@[index->Some_0 as int].0 == position,
            index is Some == entry_at(self.model().infos, position) is Some,
            index is Some ==> entry_at(self.model().infos, position) == Some(
                self.functions@[index->Some_0 as int].1.model(),
            ),
    {
        let mut i: usize = 0;
        while i < self.functions.len()
            invariant
                i <= self.functions.len(),
                forall|j: int| 0 <= j < i ==> (#[trigger] self.functions@[j]).0 != position,
            decreases self.functions.len() - i,
        {
            if self.functions[i].0 == position {
                proof {
                    assert forall|j: int| 0 <= j < i implies (#[trigger] self.model().infos[j]).0
                        != position by {
                        assert(self.functions@[j].0 != position);
                    }
                    lemma_entry_at(self.model().infos, position, i as int);
                }
                return Some(i);
            }
            i += 1;
        }
        proof {
            assert forall|j: int| 0 <= j < i implies (#[trigger] self.model().infos[j]).0
                != position by {
                assert(self.functions@[j].0 != position);
            }
            lemma_entry_at(self.model().infos, position, i as int);
        }
        None
    }
}

impl<'a> Compiler<'a> {
    /// The table of the analysis as plain values.
    pub open spec fn table(&self) -> Table {
        self.annotations.model()
    }

    /// Every body so far is the instructions emitted for it, with each
    /// constant at an index, and every function compiled so far is on the
    /// heap as its compilation.
    #[verifier::opaque]
    pub open spec fn sound(&self, gc: &GC) -> bool {
        &&& forall|i: int|
            0 <= i < self.functions@.len() ==> body_realizes(
                (#[trigger] self.functions@[i]).chunk,
                self.functions@[i].emitted@,
                gc,
                self.compiled@,
            )
        &&& linked(gc, self.table(), self.compiled@)
    }

    /// A function is being compiled, the heap is well formed, and the
    /// compiler is sound.
    pub open spec fn wf(&self, gc: &GC) -> bool {
        self.functions@.len() > 0 && gc.wf() && self.sound(gc)
    }

    /// The instructions emitted so far for the function that is being compiled.
    pub open spec fn code(&self) -> Seq<Emission> {
        self.functions@.last().emitted@
    }

    /// The constants of the function that is being compiled.
    pub open spec fn constants(&self) -> Seq<Value> {
        self.functions@.last().chunk.constants@
    }

    /// The names of the locals of the function that is being compiled
    /// that live in cells.
    pub open spec fn closed(&self) -> Seq<Seq<char>> {
        texts(self.functions@.last().closed_names@)
    }

    /// The number of frame slots in use.
    pub open spec fn spec_depth(&self) -> u16 {
        self.functions@.last().depth
    }

    /// Whether `self` has the functions under way that `before` has, the
    /// outer ones unchanged, and has compiled what `before` has compiled.
    pub open spec fn level_with(&self, before: &Compiler) -> bool {
        &&& self.functions@.len() == before.functions@.len()
        &&& self.annotations == before.annotations
        &&& self.functions@.len() > 0 ==> {
            &&& self.functions@.last().closed_names == before.functions@.last().closed_names
            &&& self.functions@.last().chunk.arity == before.functions@.last().chunk.arity
            &&& self.functions@.last().chunk.name == before.functions@.last().chunk.name
            &&& self.functions@.last().chunk.upvalues_descriptor
                == before.functions@.last().chunk.upvalues_descriptor
        }
        &&& self.keeps(before)
    }

    /// Whether `self` has the outer functions of `before` unchanged, the
    /// constants of `before` at the start of its constants, and the
    /// compiled functions of `before` among its own.
    #[verifier::opaque]
    pub open spec fn keeps(&self, before: &Compiler) -> bool {
        &&& forall|i: int|
            0 <= i < self.functions@.len() - 1 && i < before.functions@.len()
                ==> #[trigger] self.functions@[i] == before.functions@[i]
        &&& self.functions@.len() > 0 && before.functions@.len() > 0 ==> extends(
            self.constants(),
            before.constants(),
        )
        &&& before.compiled@.submap_of(self.compiled@)
    }

    /// Whether the work that `result` reports kept within `bound` new
    /// constants: where it got done, the function that is being compiled
    /// has at most `bound` constants more than before, and the constants
    /// ran out only where so many more are more than an instruction can
    /// name.
    pub open spec fn within<T>(
        &self,
        before: &Compiler,
        result: Result<T, CompileError>,
        bound: nat,
    ) -> bool {
        &&& result is Ok ==> self.constants().len() <= before.constants().len() + bound
        &&& result is Err && result->Err_0.kind is TooManyConstants ==> before.constants().len()
            + bound > u16::MAX
    }

    /// A compiler is level with itself.
    pub proof fn lemma_level_reflexive(&self)
        ensures
            self.level_with(self),
    {
        reveal(Compiler::keeps);
        if self.functions@.len() > 0 {
            assert(self.constants().subrange(0, self.constants().len() as int)
                =~= self.constants());
        }
    }

    /// Being level carries over.
    pub proof fn lemma_level_transitive(&self, middle: &Compiler, before: &Compiler)
        requires
            self.level_with(middle),
            middle.level_with(before),
        ensures
            self.level_with(before),
    {
        reveal(Compiler::keeps);
        if self.functions@.len() > 0 {
            let a = before.constants();
            let b = middle.constants();
            let c = self.constants();
            assert(c.subrange(0, a.len() as int) =~= a) by {
                assert forall|i: int| 0 <= i < a.len() implies c[i] == a[i] by {
                    assert(b.subrange(0, a.len() as int)[i] == a[i]);
                    assert(c.subrange(0, b.len() as int)[i] == b[i]);
                }
            }
        }
        vstd::map_lib::lemma_submap_of_trans(before.compiled@, middle.compiled@, self.compiled@);
    }

    fn fail<T>(&self, kind: CompileErrorKind, at: Position) -> (result: Result<T, CompileError>)
        ensures
            result == Err::<T, CompileError>(CompileError { kind, at }),
    {
        Err(CompileError { kind, at })
    }

    /// Appends an instruction to the function that is being compiled.
    fn emit(&mut self, opcode: Opcode, at: Position, what: Ghost<Emitted>, gc: &GC)
        requires
            old(self).wf(gc),
            realizes(opcode, what@, old(self).constants(), gc, old(self).compiled@),
        ensures
            final(self).wf(gc),
            final(self).level_with(old(self)),
            final(self).compiled == old(self).compiled,
            final(self).constants() == old(self).constants(),
            final(self).spec_depth() == old(self).spec_depth(),
            final(self).code() == old(self).code().push(Emission { what: what@, line: at.line }),
    {
        reveal(Compiler::sound);
        reveal(Compiler::keeps);
        let last = self.functions.len() - 1;
        let ghost before = self.functions@[last as int];
        self.functions[last].chunk.emit(opcode, at.line);
        self.functions[last].emitted = Ghost(
            before.emitted@.push(Emission { what: what@, line: at.line }),
        );
        proof {
            assert(self.constants().subrange(0, old(self).constants().len() as int)
                =~= old(self).constants());
            assert forall|i: int| 0 <= i < self.functions@.len() implies body_realizes(
                (#[trigger] self.functions@[i]).chunk,
                self.functions@[i].emitted@,
                gc,
                self.compiled@,
            ) by {
                if i < last {
                    assert(self.functions@[i] == old(self).functions@[i]);
                } else {
                    assert(body_realizes(before.chunk, before.emitted@, gc, self.compiled@));
                }
            }
        }
    }

    /// Appends an instruction that names no constant.
    fn emit_plain(&mut self, opcode: Opcode, at: Position, gc: &GC)
        requires
            old(self).wf(gc),
        ensures
            final(self).wf(gc),
            final(self).level_with(old(self)),
            final(self).compiled == old(self).compiled,
            final(self).constants() == old(self).constants(),
            final(self).spec_depth() == old(self).spec_depth(),
            final(self).code() == old(self).code().push(plain(opcode, at)),
    {
        self.emit(opcode, at, Ghost(Emitted::Plain(opcode)), gc);
    }

    /// The index of the next instruction.
    fn here(&self, gc: &GC) -> (index: usize)
        requires
            self.wf(gc),
        ensures
            index == self.code().len(),
    {
        reveal(Compiler::sound);
        self.functions[self.functions.len() - 1].chunk.code.len()
    }

    /// The number of frame slots in use.
    fn depth(&self) -> (depth: u16)
        requires
            self.functions@.len() > 0,
        ensures
            depth == self.spec_depth(),
    {
        self.functions[self.functions.len() - 1].depth
    }

    fn set_depth(&mut self, depth: u16, gc: &GC)
        requires
            old(self).wf(gc),
        ensures
            final(self).wf(gc),
            final(self).level_with(old(self)),
            final(self).compiled == old(self).compiled,
            final(self).constants() == old(self).constants(),
            final(self).code() == old(self).code(),
            final(self).spec_depth() == depth,
    {
        reveal(Compiler::sound);
        reveal(Compiler::keeps);
        let last = self.functions.len() - 1;
        self.functions[last].depth = depth;
        proof {
            assert(self.constants().subrange(0, old(self).constants().len() as int)
                =~= old(self).constants());
            assert forall|i: int| 0 <= i < self.functions@.len() implies body_realizes(
                (#[trigger] self.functions@[i]).chunk,
                self.functions@[i].emitted@,
                gc,
                self.compiled@,
            ) by {
                assert(self.functions@[i].chunk == old(self).functions@[i].chunk);
                assert(self.functions@[i].emitted == old(self).functions@[i].emitted);
            }
        }
    }

    /// Makes the jump at `index` lead to the next instruction.
    fn patch(&mut self, index: usize, at: Position, gc: &GC) -> (result: Result<(), CompileError>)
        requires
            old(self).wf(gc),
            index < old(self).code().len(),
            old(self).code()[index as int].what == Emitted::Plain(Opcode::Jump(0))
                || old(self).code()[index as int].what == Emitted::Plain(Opcode::JumpIfFalse(0)),
        ensures
            final(self).wf(gc),
            final(self).level_with(old(self)),
            final(self).compiled == old(self).compiled,
            final(self).constants() == old(self).constants(),
            final(self).spec_depth() == old(self).spec_depth(),
            old(self).code().len() - index - 1 > u16::MAX ==> result == Err::<(), CompileError>(
                CompileError { kind: CompileErrorKind::JumpTooFar, at },
            ) && final(self).code() == old(self).code(),
            old(self).code().len() - index - 1 <= u16::MAX ==> result is Ok && final(self).code()
                == old(self).code().update(
                index as int,
                Emission {
                    what: Emitted::Plain(
                        with_distance(
                            old(self).code()[index as int].what->Plain_0,
                            (old(self).code().len() - index - 1) as u16,
                        ),
                    ),
                    line: old(self).code()[index as int].line,
                },
            ),
    {
        reveal(Compiler::sound);
        reveal(Compiler::keeps);
        let last = self.functions.len() - 1;
        let here = self.functions[last].chunk.code.len();
        proof {
            assert(self.constants().subrange(0, self.constants().len() as int)
                =~= self.constants());
        }
        if here - index - 1 > u16::MAX as usize {
            return self.fail(CompileErrorKind::JumpTooFar, at);
        }
        let distance = (here - index - 1) as u16;
        let ghost before = self.functions@[last as int];
        assert(realizes(
            before.chunk.code@[index as int],
            before.emitted@[index as int].what,
            before.chunk.constants@,
            gc,
            self.compiled@,
        ));
        let patched = match self.functions[last].chunk.code[index] {
            Opcode::JumpIfFalse(_) => Opcode::JumpIfFalse(distance),
            _ => Opcode::Jump(distance),
        };
        self.functions[last].chunk.code.set(index, patched);
        self.functions[last].emitted = Ghost(
            before.emitted@.update(
                index as int,
                Emission { what: Emitted::Plain(patched), line: before.emitted@[index as int].line },
            ),
        );
        proof {
            assert forall|i: int| 0 <= i < self.functions@.len() implies body_realizes(
                (#[trigger] self.functions@[i]).chunk,
                self.functions@[i].emitted@,
                gc,
                self.compiled@,
            ) by {
                if i < last {
                    assert(self.functions@[i] == old(self).functions@[i]);
                } else {
                    let now = self.functions@[i];
                    assert(body_realizes(before.chunk, before.emitted@, gc, self.compiled@));
                    assert forall|k: int| 0 <= k < now.emitted@.len() implies realizes(
                        now.chunk.code@[k],
                        (#[trigger] now.emitted@[k]).what,
                        now.chunk.constants@,
                        gc,
                        self.compiled@,
                    ) && now.chunk.opcode_to_line@[k] == now.emitted@[k].line by {
                        if k != index {
                            assert(realizes(
                                before.chunk.code@[k],
                                before.emitted@[k].what,
                                before.chunk.constants@,
                                gc,
                                self.compiled@,
                            ));
                        }
                    }
                }
            }
        }
        Ok(())
    }

    /// The compiler stays sound when an object is stored on the heap.
    proof fn lemma_sound_in(&self, heap: &GC, later: &GC)
        requires
            self.sound(heap),
            heap.preserved_in(later),
        ensures
            self.sound(later),
    {
        reveal(Compiler::sound);
        lemma_linked_stable(heap, self.table(), self.compiled@, later, self.compiled@);
        assert forall|i: int| 0 <= i < self.functions@.len() implies body_realizes(
            (#[trigger] self.functions@[i]).chunk,
            self.functions@[i].emitted@,
            later,
            self.compiled@,
        ) by {
            let chunk = self.functions@[i].chunk;
            assert(chunk.constants@.subrange(0, chunk.constants@.len() as int)
                =~= chunk.constants@);
            lemma_body_stable(
                chunk,
                chunk,
                self.functions@[i].emitted@,
                heap,
                self.compiled@,
                later,
                self.compiled@,
            );
        }
    }

    /// Adds a constant at the end of the constants.
    fn push_constant(&mut self, value: Value, at: Position, gc: &GC) -> (result: Result<
        u16,
        CompileError,
    >)
        requires
            old(self).wf(gc),
        ensures
            final(self).wf(gc),
            final(self).level_with(old(self)),
            final(self).compiled == old(self).compiled,
            final(self).spec_depth() == old(self).spec_depth(),
            final(self).code() == old(self).code(),
            result matches Ok(ix) ==> ix < final(self).constants().len() && final(self).constants()[ix as int] == value,
            result matches Err(error) ==> error.kind is TooManyConstants,
            final(self).within(old(self), result, 1),
    {
        reveal(Compiler::sound);
        reveal(Compiler::keeps);
        let last = self.functions.len() - 1;
        let count = self.functions[last].chunk.constants.len();
        proof {
            assert(self.constants().subrange(0, self.constants().len() as int)
                =~= self.constants());
        }
        if count > u16::MAX as usize {
            return self.fail(CompileErrorKind::TooManyConstants, at);
        }
        let ghost before = self.functions@[last as int];
        self.functions[last].chunk.constants.push(value);
        proof {
            assert(self.constants().subrange(0, old(self).constants().len() as int)
                =~= old(self).constants());
            assert forall|i: int| 0 <= i < self.functions@.len() implies body_realizes(
                (#[trigger] self.functions@[i]).chunk,
                self.functions@[i].emitted@,
                gc,
                self.compiled@,
            ) by {
                if i < last {
                    assert(self.functions@[i] == old(self).functions@[i]);
                } else {
                    lemma_body_stable(
                        before.chunk,
                        self.functions@[i].chunk,
                        before.emitted@,
                        gc,
                        self.compiled@,
                        gc,
                        self.compiled@,
                    );
                }
            }
        }
        Ok(count as u16)
    }

    /// The index of `value` among the constants of the function that is
    /// being compiled; the value is added where it is not there yet.
    fn constant(&mut self, value: Value, at: Position, gc: &GC) -> (result: Result<u16, CompileError>)
        requires
            old(self).wf(gc),
        ensures
            final(self).wf(gc),
            final(self).level_with(old(self)),
            final(self).compiled == old(self).compiled,
            final(self).spec_depth() == old(self).spec_depth(),
            final(self).code() == old(self).code(),
            result matches Ok(ix) ==> ix < final(self).constants().len() && final(self).constants()[ix as int] == value,
            result matches Err(error) ==> error.kind is TooManyConstants,
            final(self).within(old(self), result, 1),
    {
        let last = self.functions.len() - 1;
        let mut i: usize = 0;
        proof {
            self.lemma_level_reflexive();
        }
        while i < self.functions[last].chunk.constants.len()
            invariant
                *self == *old(self),
                self.wf(gc),
                last == self.functions@.len() - 1,
                i <= self.constants().len(),
                self.level_with(old(self)),
            decreases self.constants().len() - i,
        {
            if self.functions[last].chunk.constants[i] == value {
                if i > u16::MAX as usize {
                    return self.fail(CompileErrorKind::TooManyConstants, at);
                }
                return Ok(i as u16);
            }
            i += 1;
        }
        self.push_constant(value, at, gc)
    }

    /// The index of a string constant with the text `text`; the string is
    /// stored on the heap and added to the constants where there is none.
    fn string_constant(&mut self, text: &String, at: Position, gc: &mut GC) -> (result: Result<
        u16,
        CompileError,
    >)
        requires
            old(self).wf(old(gc)),
        ensures
            final(self).wf(final(gc)),
            final(self).level_with(old(self)),
            final(self).compiled == old(self).compiled,
            final(self).spec_depth() == old(self).spec_depth(),
            final(self).code() == old(self).code(),
            old(gc).preserved_in(final(gc)),
            result matches Ok(ix) ==> ix < final(self).constants().len() && final(gc).spec_text(
                final(self).constants()[ix as int],
            ) == Some(text@),
            result matches Err(error) ==> error.kind is TooManyConstants,
            final(self).within(old(self), result, 1),
    {
        let last = self.functions.len() - 1;
        let mut i: usize = 0;
        proof {
            self.lemma_level_reflexive();
        }
        while i < self.functions[last].chunk.constants.len()
            invariant
                *self == *old(self),
                *gc == *old(gc),
                self.wf(gc),
                last == self.functions@.len() - 1,
                i <= self.constants().len(),
                self.level_with(old(self)),
            decreases self.constants().len() - i,
        {
            let same = match gc.text(self.functions[last].chunk.constants[i]) {
                Some(existing) => *existing == *text,
                None => false,
            };
            if same {
                if i > u16::MAX as usize {
                    return self.fail(CompileErrorKind::TooManyConstants, at);
                }
                return Ok(i as u16);
            }
            i += 1;
        }
        let ghost heap = *gc;
        let value = gc.store(OwnedObjectItem::Str(text.clone()));
        proof {
            self.lemma_sound_in(&heap, gc);
        }
        self.push_constant(value, at, gc)
    }

    /// Appends an instruction that uses a string constant with the text `text`.
    fn emit_text(&mut self, use_: TextUse, text: &String, at: Position, gc: &mut GC) -> (result:
        Result<(), CompileError>)
        requires
            old(self).wf(old(gc)),
        ensures
            final(self).wf(final(gc)),
            final(self).level_with(old(self)),
            final(self).compiled == old(self).compiled,
            final(self).spec_depth() == old(self).spec_depth(),
            old(gc).preserved_in(final(gc)),
            result is Ok ==> final(self).code() == old(self).code().push(
                textual(use_, text@, at),
            ),
            result matches Err(error) ==> error.kind is TooManyConstants,
            final(self).within(old(self), result, 1),
    {
        let index = match self.string_constant(text, at, gc) {
            Ok(index) => index,
            Err(error) => {
                return Err(error);
            },
        };
        let opcode = match use_ {
            TextUse::Literal => Opcode::LoadConst(index),
            TextUse::LoadGlobal => Opcode::LoadGlobal(index),
            TextUse::StoreGlobal => Opcode::StoreGlobal(index),
            TextUse::GetProperty => Opcode::GetProperty(index),
            TextUse::SetProperty => Opcode::SetProperty(index),
            TextUse::HasProperty => Opcode::HasProperty(index),
            TextUse::SetMethod => Opcode::SetMethod(index),
        };
        let ghost middle = *self;
        self.emit(opcode, at, Ghost(Emitted::Text(use_, text@)), gc);
        proof {
            self.lemma_level_transitive(&middle, old(self));
        }
        Ok(())
    }

    /// Whether the function that is being compiled keeps the locals of the
    /// name `name` in cells, because an inner function captures one.
    fn is_closed(&self, name: &String) -> (closed: bool)
        requires
            self.functions@.len() > 0,
        ensures
            closed == has_name(self.closed(), name@),
    {
        holds_name(&self.functions[self.functions.len() - 1].closed_names, name)
    }

    /// Whether `self` is `before` after what `result` reports: where the
    /// work got done, the instructions `expected` were emitted and `depth`
    /// frame slots are in use; where it failed, it failed as expected.
    pub open spec fn advanced(
        &self,
        before: &Compiler,
        result: Result<(), CompileError>,
        expected: Result<Seq<Emission>, CompileError>,
        depth: int,
    ) -> bool {
        &&& fails_as(result, expected)
        &&& result is Ok ==> self.code() == before.code() + expected->Ok_0 && self.spec_depth()
            == depth
    }

    /// Emits what puts the value of a variable on the stack.
    fn load_variable(&mut self, name: &Token, gc: &mut GC) -> (result: Result<(), CompileError>)
        requires
            old(self).wf(old(gc)),
        ensures
            final(self).wf(final(gc)),
            final(self).level_with(old(self)),
            old(gc).preserved_in(final(gc)),
            final(self).advanced(
                old(self),
                result,
                load_code(*name, old(self).table(), old(self).closed(), old(self).spec_depth()),
                old(self).spec_depth() + 1,
            ),
            final(self).within(old(self), result, 1),
    {
        let at = name.position;
        let text = name.name_string();
        let depth = self.depth();
        proof {
            self.lemma_level_reflexive();
        }
        let kind = match self.annotations.variable_kind(at) {
            None => {
                return self.fail(CompileErrorKind::MissingAnnotation, at);
            },
            Some(kind) => kind,
        };
        if depth == u16::MAX {
            return self.fail(CompileErrorKind::TooManySlots, at);
        }
        match kind {
            VariableKind::Local(slot) => {
                self.emit_plain(Opcode::LoadLocal(slot), at, gc);
                if self.is_closed(&text) {
                    let ghost s1 = *self;
                    self.emit_plain(Opcode::LoadCell, at, gc);
                    proof {
                        self.lemma_level_transitive(&s1, old(self));
                    }
                }
            },
            VariableKind::Closed(index) => {
                self.emit_plain(Opcode::LoadUpvalue(index), at, gc);
                let ghost s1 = *self;
                self.emit_plain(Opcode::LoadCell, at, gc);
                proof {
                    self.lemma_level_transitive(&s1, old(self));
                }
            },
            VariableKind::Global => {
                match self.emit_text(TextUse::LoadGlobal, &text, at, gc) {
                    Ok(_) => {},
                    Err(error) => {
                        return Err(error);
                    },
                }
            },
            VariableKind::Builtin(index) => {
                self.emit_plain(Opcode::LoadBuiltin(index), at, gc);
            },
        }
        let ghost s2 = *self;
        self.set_depth(depth + 1, gc);
        proof {
            self.lemma_level_transitive(&s2, old(self));
            let expected = load_code(
                *name,
                old(self).table(),
                old(self).closed(),
                old(self).spec_depth(),
            )->Ok_0;
            assert(self.code() =~= old(self).code() + expected);
        }
        Ok(())
    }

    /// Emits what takes the top value off the stack and makes it the value
    /// of a variable.
    fn store_variable(&mut self, name: &Token, gc: &mut GC) -> (result: Result<(), CompileError>)
        requires
            old(self).wf(old(gc)),
            old(self).spec_depth() > 0,
        ensures
            final(self).wf(final(gc)),
            final(self).level_with(old(self)),
            old(gc).preserved_in(final(gc)),
            final(self).advanced(
                old(self),
                result,
                store_code(*name, old(self).table(), old(self).closed()),
                old(self).spec_depth() - 1,
            ),
            final(self).within(old(self), result, 1),
    {
        let at = name.position;
        let text = name.name_string();
        let depth = self.depth();
        proof {
            self.lemma_level_reflexive();
        }
        match self.annotations.variable_kind(at) {
            None => {
                return self.fail(CompileErrorKind::MissingAnnotation, at);
            },
            Some(VariableKind::Local(slot)) => {
                if self.is_closed(&text) {
                    self.emit_plain(Opcode::LoadLocal(slot), at, gc);
                    let ghost s1 = *self;
                    self.emit_plain(Opcode::StoreCell, at, gc);
                    proof {
                        self.lemma_level_transitive(&s1, old(self));
                    }
                } else {
                    self.emit_plain(Opcode::StoreLocal(slot), at, gc);
                }
            },
            Some(VariableKind::Closed(index)) => {
                self.emit_plain(Opcode::StoreUpvalue(index), at, gc);
            },
            Some(VariableKind::Global) => {
                match self.emit_text(TextUse::StoreGlobal, &text, at, gc) {
                    Ok(_) => {},
                    Err(error) => {
                        return Err(error);
                    },
                }
            },
            Some(VariableKind::Builtin(_)) => {
                return self.fail(CompileErrorKind::InvalidAssignmentTarget, at);
            },
        }
        let ghost s2 = *self;
        self.set_depth(depth - 1, gc);
        proof {
            self.lemma_level_transitive(&s2, old(self));
            let expected = store_code(*name, old(self).table(), old(self).closed())->Ok_0;
            assert(self.code() =~= old(self).code() + expected);
        }
        Ok(())
    }

    /// Emits what puts a function value on the stack: the captured
    /// bindings in order and `MakeClosure`, or the constant itself for a
    /// function that captures nothing.
    fn emit_closure(
        &mut self,
        function: Value,
        upvalues: &Vec<UpvalueDescriptor>,
        at: Position,
        ast: Ghost<FunctionAst>,
        gc: &GC,
    ) -> (result: Result<(), CompileError>)
        requires
            old(self).wf(gc),
            function matches Value::Function(h) && old(self).compiled@.contains_key(h) && old(
                self,
            ).compiled@[h] == ast@,
            entry_at(old(self).table().infos, ast@.key) matches Some(info) && upvalues@
                == info.upvalues,
        ensures
            final(self).wf(gc),
            final(self).level_with(old(self)),
            final(self).compiled == old(self).compiled,
            final(self).advanced(
                old(self),
                result,
                closure_code(ast@, old(self).table(), at, old(self).spec_depth()),
                old(self).spec_depth() + 1,
            ),
            final(self).within(old(self), result, 1),
    {
        let depth = self.depth();
        proof {
            self.lemma_level_reflexive();
        }
        if upvalues.len() > u16::MAX as usize {
            return self.fail(CompileErrorKind::TooManySlots, at);
        }
        if depth == u16::MAX {
            return self.fail(CompileErrorKind::TooManySlots, at);
        }
        let index = match self.constant(function, at, gc) {
            Ok(index) => index,
            Err(error) => {
                return Err(error);
            },
        };
        let ghost start = *self;
        let mut i: usize = 0;
        proof {
            assert(self.code() + capture_code(upvalues@, 0, at) =~= old(self).code() + capture_code(
                upvalues@,
                0,
                at,
            ));
        }
        while i < upvalues.len()
            invariant
                i <= upvalues.len(),
                self.wf(gc),
                self.level_with(old(self)),
                self.compiled == start.compiled,
                self.constants() == start.constants(),
                self.spec_depth() == start.spec_depth(),
                self.code() + capture_code(upvalues@, i as nat, at) == old(self).code()
                    + capture_code(upvalues@, 0, at),
            decreases upvalues.len() - i,
        {
            let ghost before = self.code();
            let opcode = if upvalues[i].from_enclosing_upvalues {
                Opcode::LoadUpvalue(upvalues[i].slot)
            } else {
                Opcode::LoadLocal(upvalues[i].slot)
            };
            let ghost entered = *self;
            self.emit_plain(opcode, at, gc);
            proof {
                self.lemma_level_transitive(&entered, old(self));
                assert(self.code() + capture_code(upvalues@, (i + 1) as nat, at) =~= before
                    + capture_code(upvalues@, i as nat, at));
            }
            i += 1;
        }
        let opcode = if upvalues.len() == 0 {
            Opcode::LoadConst(index)
        } else {
            Opcode::MakeClosure(index, upvalues.len() as u16)
        };
        let ghost loaded = self.code();
        let ghost s1 = *self;
        self.emit(opcode, at, Ghost(Emitted::Function(ast@, upvalues@.len())), gc);
        let ghost s2 = *self;
        self.set_depth(depth + 1, gc);
        proof {
            s2.lemma_level_transitive(&s1, old(self));
            self.lemma_level_transitive(&s2, old(self));
            assert(capture_code(upvalues@, upvalues@.len(), at) =~= Seq::<Emission>::empty());
            assert(loaded =~= old(self).code() + capture_code(upvalues@, 0, at));
            let expected = closure_code(ast@, old(self).table(), at, old(self).spec_depth())->Ok_0;
            assert(self.code() =~= old(self).code() + expected);
        }
        Ok(())
    }

    /// Compiles a function to a body of its own on the heap and returns
    /// the value that names the body, with the bindings that the function
    /// captures.
    fn compile_function(
        &mut self,
        key: Position,
        name: String,
        args: &Vec<Token>,
        vararg: Option<&Token>,
        body: &Expr,
        gc: &mut GC,
    ) -> (result: Result<(Value, Vec<UpvalueDescriptor>), CompileError>)
        requires
            old(self).sound(old(gc)),
            old(gc).wf(),
        ensures
            final(self).sound(final(gc)),
            final(gc).wf(),
            final(self).functions@ == old(self).functions@,
            final(self).annotations == old(self).annotations,
            old(self).compiled@.submap_of(final(self).compiled@),
            old(gc).preserved_in(final(gc)),
            fails_as(
                result,
                function_code(
                    function_ast(key, name@, args@, clone_option(vararg), *body),
                    old(self).table(),
                ),
            ),
            result matches Ok((value, upvalues)) ==> value matches Value::Function(h) && final(self).compiled@.contains_key(h) && final(self).compiled@[h] == function_ast(
                key,
                name@,
                args@,
                clone_option(vararg),
                *body,
            ) && (entry_at(old(self).table().infos, key) matches Some(info) && upvalues@
                == info.upvalues),
            result is Err && result->Err_0.kind is TooManyConstants ==> expr_constants(*body)
                > u16::MAX,
        decreases body, 2nat,
    {
        let ghost ast = function_ast(key, name@, args@, clone_option(vararg), *body);
        let ghost table = self.table();
        let annotations = self.annotations;
        let index = match annotations.function_index(key) {
            Some(index) => index,
            None => {
                return self.fail(CompileErrorKind::MissingAnnotation, key);
            },
        };
        let ghost info = annotations.functions@[index as int].1.model();
        let closed_names = clone_names(&annotations.functions[index].1.closed_names);
        let upvalues = clone_upvalues(&annotations.functions[index].1.upvalues);
        let count = args.len();
        let arity = match vararg {
            Some(_) => Arity::AtLeast(count),
            None => Arity::Exact(count),
        };
        let slots = match vararg {
            Some(_) => {
                if count == usize::MAX {
                    return self.fail(CompileErrorKind::TooManySlots, key);
                }
                count + 1
            },
            None => count,
        };
        assert(slots == ast.params.len());
        if slots >= u16::MAX as usize {
            return self.fail(CompileErrorKind::TooManySlots, key);
        }
        let ghost name_text = name@;
        let chunk = Chunk {
            constants: Vec::new(),
            code: Vec::new(),
            opcode_to_line: Vec::new(),
            arity,
            name,
            upvalues_descriptor: clone_upvalues(&upvalues),
        };
        let ghost before = *self;
        self.functions.push(
            FunctionState {
                chunk,
                depth: (slots + 1) as u16,
                closed_names,
                emitted: Ghost(Seq::empty()),
            },
        );
        let ghost pushed = *self;
        proof {
            reveal(Compiler::sound);
            assert(self.functions@.drop_last() =~= before.functions@);
            assert forall|i: int| 0 <= i < self.functions@.len() implies body_realizes(
                (#[trigger] self.functions@[i]).chunk,
                self.functions@[i].emitted@,
                gc,
                self.compiled@,
            ) by {
                if i < before.functions@.len() {
                    assert(self.functions@[i] == before.functions@[i]);
                }
            }
            assert(self.closed() == info.closed_names);
            assert(prologue_code(ast, info.closed_names, 0) =~= Seq::<Emission>::empty());
            self.lemma_level_reflexive();
            assert(self.constants().len() == 0);
        }
        let mut i: usize = 0;
        while i < slots
            invariant
                i <= slots,
                slots < u16::MAX,
                slots == ast.params.len(),
                slots == count || slots == count + 1,
                slots == count + 1 ==> vararg is Some,
                slots == count ==> vararg is None,
                count == args@.len(),
                ast == function_ast(key, name_text, args@, clone_option(vararg), *body),
                self.wf(gc),
                *gc == *old(gc),
                self.level_with(&pushed),
                self.compiled == before.compiled,
                self.closed() == info.closed_names,
                self.spec_depth() == slots + 1,
                self.code() == prologue_code(ast, info.closed_names, i as nat),
                self.constants().len() == 0,
            decreases slots - i,
        {
            let text = if i < count {
                args[i].name_string()
            } else {
                match vararg {
                    Some(rest) => rest.name_string(),
                    None => String::new(),
                }
            };
            assert(text@ == ast.params[i as int].name());
            if self.is_closed(&text) {
                let slot = (i + 1) as u16;
                let ghost s0 = *self;
                self.emit_plain(Opcode::LoadLocal(slot), key, gc);
                let ghost s1 = *self;
                self.emit_plain(Opcode::MakeCell, key, gc);
                let ghost s2 = *self;
                self.emit_plain(Opcode::StoreLocal(slot), key, gc);
                proof {
                    s1.lemma_level_transitive(&s0, &pushed);
                    s2.lemma_level_transitive(&s1, &pushed);
                    self.lemma_level_transitive(&s2, &pushed);
                }
            }
            proof {
                assert(self.code() =~= prologue_code(ast, info.closed_names, (i + 1) as nat));
            }
            i += 1;
        }
        let ghost prepared = *self;
        match self.compile_expr(body, gc) {
            Ok(_) => {},
            Err(error) => {
                let ghost failed = *self;
                assert(error.kind is TooManyConstants ==> expr_constants(*body) > u16::MAX);
                let _ = self.functions.pop();
                proof {
                    failed.lemma_level_transitive(&prepared, &pushed);
                    reveal(Compiler::keeps);
                    reveal(Compiler::sound);
                    assert(self.functions@ =~= before.functions@) by {
                        assert forall|k: int| 0 <= k < before.functions@.len() implies self.functions@[k]
                            == before.functions@[k] by {
                            assert(failed.functions@[k] == pushed.functions@[k]);
                            assert(pushed.functions@.drop_last()[k] == before.functions@[k]);
                        }
                    }
                    assert forall|k: int| 0 <= k < self.functions@.len() implies body_realizes(
                        (#[trigger] self.functions@[k]).chunk,
                        self.functions@[k].emitted@,
                        gc,
                        self.compiled@,
                    ) by {
                        assert(self.functions@[k] == failed.functions@[k]);
                    }
                    vstd::map_lib::lemma_submap_of_trans(
                        old(self).compiled@,
                        prepared.compiled@,
                        self.compiled@,
                    );
                }
                return Err(error);
            },
        }
        let ghost compiled_body = *self;
        self.emit_plain(Opcode::Return, key, gc);
        let ghost finished = *self;
        let state = match self.functions.pop() {
            Some(state) => state,
            None => {
                return self.fail(CompileErrorKind::MissingAnnotation, key);
            },
        };
        let ghost heap = *gc;
        let function = gc.store(OwnedObjectItem::Function(state.chunk));
        let ghost h = heap.next_handle();
        let ghost earlier = self.compiled@;
        proof {
            reveal(Compiler::sound);
            assert(function == Value::Function(h));
            assert(!earlier.contains_key(h)) by {
                if earlier.contains_key(h) {
                    assert(is_compilation(&heap, h, earlier[h], table, earlier));
                }
            }
        }
        self.compiled = Ghost(earlier.insert(h, ast));
        proof {
            reveal(Compiler::keeps);
            reveal(Compiler::sound);
            compiled_body.lemma_level_transitive(&prepared, &pushed);
            finished.lemma_level_transitive(&compiled_body, &pushed);
            let code = finished.code();
            assert(function_code(ast, table) == Ok::<Seq<Emission>, CompileError>(code)) by {
                let body_code = expr_code(*body, table, info.closed_names, (slots + 1) as u16)->Ok_0;
                assert(compiled_body.code() == prepared.code() + body_code);
                assert(code =~= (prologue_code(ast, info.closed_names, slots as nat)
                    + body_code).push(plain(Opcode::Return, key)));
            }
            assert(earlier.submap_of(self.compiled@));
            assert(self.functions@ =~= before.functions@) by {
                assert forall|k: int| 0 <= k < before.functions@.len() implies self.functions@[k]
                    == before.functions@[k] by {
                    assert(finished.functions@[k] == pushed.functions@[k]);
                    assert(pushed.functions@.drop_last()[k] == before.functions@[k]);
                }
            }
            assert(state.chunk.constants@.subrange(0, state.chunk.constants@.len() as int)
                =~= state.chunk.constants@);
            assert(state == finished.functions@.last());
            assert(body_realizes(state.chunk, code, &heap, earlier));
            lemma_body_stable(
                state.chunk,
                state.chunk,
                code,
                &heap,
                earlier,
                gc,
                self.compiled@,
            );
            assert(state.chunk.arity == arity_of(ast));
            assert(state.chunk.name@ == ast.name);
            assert(state.chunk.upvalues_descriptor@ == info.upvalues);
            assert(is_compilation(gc, h, ast, table, self.compiled@));
            lemma_linked_stable(&heap, table, earlier, gc, self.compiled@);
            assert forall|k: int| 0 <= k < self.functions@.len() implies body_realizes(
                (#[trigger] self.functions@[k]).chunk,
                self.functions@[k].emitted@,
                gc,
                self.compiled@,
            ) by {
                assert(self.functions@[k] == finished.functions@[k]);
                let c = self.functions@[k].chunk;
                assert(c.constants@.subrange(0, c.constants@.len() as int) =~= c.constants@);
                lemma_body_stable(
                    c,
                    c,
                    self.functions@[k].emitted@,
                    &heap,
                    earlier,
                    gc,
                    self.compiled@,
                );
            }
            vstd::map_lib::lemma_submap_of_trans(
                old(self).compiled@,
                earlier,
                self.compiled@,
            );
        }
        Ok((function, upvalues))
    }

    /// Compiles an expression: what it emits leaves the value of the
    /// expression on the stack.
    fn compile_expr(&mut self, e: &Expr, gc: &mut GC) -> (result: Result<(), CompileError>)
        requires
            old(self).wf(old(gc)),
        ensures
            final(self).wf(final(gc)),
            final(self).level_with(old(self)),
            old(gc).preserved_in(final(gc)),
            final(self).advanced(
                old(self),
                result,
                expr_code(*e, old(self).table(), old(self).closed(), old(self).spec_depth()),
                old(self).spec_depth() + 1,
            ),
            final(self).within(old(self), result, expr_constants(*e)),
        decreases e, 1nat,
    {
        match e {
            Expr::Number(_) => self.compile_literal(e, gc),
            Expr::ConstString(_) => self.compile_literal(e, gc),
            Expr::Name(token) => self.load_variable(token, gc),
            Expr::Binary(op, _, _) => {
                let arithmetic = operator_opcode(&op.kind).is_some();
                if arithmetic {
                    self.compile_arithmetic(e, gc)
                } else {
                    self.compile_logical(e, gc)
                }
            },
            Expr::Unary(_, _) => self.compile_unary(e, gc),
            Expr::If(_, _, _) => self.compile_if(e, gc),
            Expr::Block(_, _, _) => self.compile_scope(e, gc),
            Expr::SingleStatement(_) => self.compile_scope(e, gc),
            Expr::Call(_, _) => self.compile_call(e, gc),
            Expr::PartialCall(_, _) => self.compile_partial_call(e, gc),
            Expr::PropertyAccess(_, _) => self.compile_property(e, gc),
            Expr::PropertyTest(_, _) => self.compile_property(e, gc),
            Expr::AnonFunction(args, vararg, arrow, body) => self.compile_function_value(
                arrow.position,
                String::new(),
                args,
                vararg.as_ref(),
                body,
                arrow.position,
                gc,
            ),
        }
    }

    /// Compiles a number or a string literal.
    fn compile_literal(&mut self, e: &Expr, gc: &mut GC) -> (result: Result<(), CompileError>)
        requires
            old(self).wf(old(gc)),
            *e is Number || *e is ConstString,
        ensures
            final(self).wf(final(gc)),
            final(self).level_with(old(self)),
            old(gc).preserved_in(final(gc)),
            final(self).advanced(
                old(self),
                result,
                expr_code(*e, old(self).table(), old(self).closed(), old(self).spec_depth()),
                old(self).spec_depth() + 1,
            ),
            final(self).within(old(self), result, expr_constants(*e)),
        decreases e, 0nat,
    {
        let depth = self.depth();
        proof {
            self.lemma_level_reflexive();
        }
        match e {
            Expr::Number(token) => {
                let at = token.position;
                match token.kind {
                    TokenKind::Number(n) => {
                        if depth == u16::MAX {
                            return self.fail(CompileErrorKind::TooManySlots, at);
                        }
                        if -32768 <= n && n <= 32767 {
                            self.emit_plain(Opcode::LoadImmediateInt(n as i16), at, gc);
                        } else {
                            let index = match self.constant(Value::Int(n), at, gc) {
                                Ok(index) => index,
                                Err(error) => {
                                    return Err(error);
                                },
                            };
                            let ghost middle = *self;
                            self.emit(Opcode::LoadConst(index), at, Ghost(Emitted::Integer(n)), gc);
                            proof {
                                self.lemma_level_transitive(&middle, old(self));
                            }
                        }
                        let ghost middle = *self;
                        self.set_depth(depth + 1, gc);
                        proof {
                            self.lemma_level_transitive(&middle, old(self));
                            let expected = expr_code(
                                *e,
                                old(self).table(),
                                old(self).closed(),
                                old(self).spec_depth(),
                            )->Ok_0;
                            assert(self.code() =~= old(self).code() + expected);
                        }
                        Ok(())
                    },
                    _ => self.fail(CompileErrorKind::MalformedToken, at),
                }
            },
            Expr::ConstString(token) => {
                let at = token.position;
                if depth == u16::MAX {
                    return self.fail(CompileErrorKind::TooManySlots, at);
                }
                let text = token.name_string();
                match self.emit_text(TextUse::Literal, &text, at, gc) {
                    Ok(_) => {},
                    Err(error) => {
                        return Err(error);
                    },
                }
                let ghost middle = *self;
                self.set_depth(depth + 1, gc);
                proof {
                    self.lemma_level_transitive(&middle, old(self));
                    let expected = expr_code(
                        *e,
                        old(self).table(),
                        old(self).closed(),
                        old(self).spec_depth(),
                    )->Ok_0;
                    assert(self.code() =~= old(self).code() + expected);
                }
                Ok(())
            },
            _ => {
                proof {
                    assert(false);
                }
                Ok(())
            },
        }
    }

    /// Compiles `not`: the operand, and the instruction.
    fn compile_unary(&mut self, e: &Expr, gc: &mut GC) -> (result: Result<(), CompileError>)
        requires
            old(self).wf(old(gc)),
            *e is Unary,
        ensures
            final(self).wf(final(gc)),
            final(self).level_with(old(self)),
            old(gc).preserved_in(final(gc)),
            final(self).advanced(
                old(self),
                result,
                expr_code(*e, old(self).table(), old(self).closed(), old(self).spec_depth()),
                old(self).spec_depth() + 1,
            ),
            final(self).within(old(self), result, expr_constants(*e)),
        decreases e, 0nat,
    {
        let depth = self.depth();
        proof {
            self.lemma_level_reflexive();
        }
        match e {
            Expr::Unary(op, operand) => {
                match op.kind {
                    TokenKind::Not => {},
                    _ => {
                        return self.fail(CompileErrorKind::MalformedToken, op.position);
                    },
                }
                match self.compile_expr(operand, gc) {
                    Ok(_) => {},
                    Err(error) => {
                        return Err(error);
                    },
                }
                let ghost middle = *self;
                self.emit_plain(Opcode::Not, op.position, gc);
                proof {
                    self.lemma_level_transitive(&middle, old(self));
                }
                Ok(())
            },
            _ => {
                proof {
                    assert(false);
                }
                Ok(())
            },
        }
    }

    /// Compiles a block, or a statement that stands for an expression: the statements, and the end of their scope.
    fn compile_scope(&mut self, e: &Expr, gc: &mut GC) -> (result: Result<(), CompileError>)
        requires
            old(self).wf(old(gc)),
            *e is Block || *e is SingleStatement,
        ensures
            final(self).wf(final(gc)),
            final(self).level_with(old(self)),
            old(gc).preserved_in(final(gc)),
            final(self).advanced(
                old(self),
                result,
                expr_code(*e, old(self).table(), old(self).closed(), old(self).spec_depth()),
                old(self).spec_depth() + 1,
            ),
            final(self).within(old(self), result, expr_constants(*e)),
        decreases e, 0nat,
    {
        let depth = self.depth();
        proof {
            self.lemma_level_reflexive();
        }
        match e {
            Expr::Block(begin, _, stmts) => {
                let count = match self.annotations.block_locals(begin.position) {
                    Some(count) => count,
                    None => {
                        return self.fail(CompileErrorKind::MissingAnnotation, begin.position);
                    },
                };
                let kept = match self.compile_stmts(stmts, gc) {
                    Ok(kept) => kept,
                    Err(error) => {
                        return Err(error);
                    },
                };
                let ghost middle = *self;
                let ghost heap = *gc;
                let result = self.finish_scope(kept, Some(count), depth, begin.position, gc);
                proof {
                    self.lemma_level_transitive(&middle, old(self));
                    let (code, now, k) = stmts_code(
                        stmts@,
                        stmts@.len(),
                        old(self).table(),
                        old(self).closed(),
                        depth,
                    )->Ok_0;
                    if result is Ok {
                        let tail = scope_end(
                            Seq::empty(),
                            now,
                            kept,
                            Some(count),
                            depth,
                            begin.position,
                        )->Ok_0;
                        lemma_scope_end(code, now, kept, Some(count), depth, begin.position);
                        assert(self.code() =~= old(self).code() + (code + tail));
                    } else {
                        lemma_scope_end(code, now, kept, Some(count), depth, begin.position);
                    }
                }
                result
            },
            Expr::SingleStatement(stmt) => {
                let at = stmt_position(stmt);
                let kept = match self.compile_stmt(stmt, true, gc) {
                    Ok(kept) => kept,
                    Err(error) => {
                        return Err(error);
                    },
                };
                let ghost middle = *self;
                let result = self.finish_scope(kept, None, depth, at, gc);
                proof {
                    self.lemma_level_transitive(&middle, old(self));
                    let (code, now, k) = stmt_code(
                        **stmt,
                        true,
                        old(self).table(),
                        old(self).closed(),
                        depth,
                    )->Ok_0;
                    lemma_scope_end(code, now, kept, None, depth, at);
                    if result is Ok {
                        let tail = scope_end(Seq::empty(), now, kept, None, depth, at)->Ok_0;
                        assert(self.code() =~= old(self).code() + (code + tail));
                    }
                }
                result
            },
            _ => {
                proof {
                    assert(false);
                }
                Ok(())
            },
        }
    }

    /// Compiles the reading or the testing of a property: the target, and the instruction with the property's name.
    fn compile_property(&mut self, e: &Expr, gc: &mut GC) -> (result: Result<(), CompileError>)
        requires
            old(self).wf(old(gc)),
            *e is PropertyAccess || *e is PropertyTest,
        ensures
            final(self).wf(final(gc)),
            final(self).level_with(old(self)),
            old(gc).preserved_in(final(gc)),
            final(self).advanced(
                old(self),
                result,
                expr_code(*e, old(self).table(), old(self).closed(), old(self).spec_depth()),
                old(self).spec_depth() + 1,
            ),
            final(self).within(old(self), result, expr_constants(*e)),
        decreases e, 0nat,
    {
        let depth = self.depth();
        proof {
            self.lemma_level_reflexive();
        }
        match e {
            Expr::PropertyAccess(target, name) => {
                match self.compile_expr(target, gc) {
                    Ok(_) => {},
                    Err(error) => {
                        return Err(error);
                    },
                }
                let ghost middle = *self;
                let ghost heap = *gc;
                let text = name.name_string();
                match self.emit_text(TextUse::GetProperty, &text, name.position, gc) {
                    Ok(_) => {},
                    Err(error) => {
                        proof {
                            self.lemma_level_transitive(&middle, old(self));
                        }
                        return Err(error);
                    },
                }
                proof {
                    self.lemma_level_transitive(&middle, old(self));
                }
                Ok(())
            },
            Expr::PropertyTest(target, name) => {
                match self.compile_expr(target, gc) {
                    Ok(_) => {},
                    Err(error) => {
                        return Err(error);
                    },
                }
                let ghost middle = *self;
                let text = name.name_string();
                match self.emit_text(TextUse::HasProperty, &text, name.position, gc) {
                    Ok(_) => {},
                    Err(error) => {
                        proof {
                            self.lemma_level_transitive(&middle, old(self));
                        }
                        return Err(error);
                    },
                }
                proof {
                    self.lemma_level_transitive(&middle, old(self));
                }
                Ok(())
            },
            _ => {
                proof {
                    assert(false);
                }
                Ok(())
            },
        }
    }

    /// Compiles a function and emits what puts its value on the stack.
    fn compile_function_value(
        &mut self,
        key: Position,
        name: String,
        args: &Vec<Token>,
        vararg: Option<&Token>,
        body: &Expr,
        at: Position,
        gc: &mut GC,
    ) -> (result: Result<(), CompileError>)
        requires
            old(self).wf(old(gc)),
        ensures
            final(self).wf(final(gc)),
            final(self).level_with(old(self)),
            old(gc).preserved_in(final(gc)),
            final(self).advanced(
                old(self),
                result,
                function_value_code(
                    function_ast(key, name@, args@, clone_option(vararg), *body),
                    old(self).table(),
                    at,
                    old(self).spec_depth(),
                ),
                old(self).spec_depth() + 1,
            ),
            final(self).within(old(self), result, expr_constants(*body) + 1),
        decreases body, 3nat,
    {
        let ghost ast = function_ast(key, name@, args@, clone_option(vararg), *body);
        let outcome = self.compile_function(key, name, args, vararg, body, gc);
        let ghost middle = *self;
        proof {
            reveal(Compiler::keeps);
            assert(middle.level_with(old(self))) by {
                assert(middle.constants().subrange(0, old(self).constants().len() as int)
                    =~= old(self).constants());
            }
        }
        let (function, upvalues) = match outcome {
            Ok(compiled) => compiled,
            Err(error) => {
                return Err(error);
            },
        };
        let result = self.emit_closure(function, &upvalues, at, Ghost(ast), gc);
        proof {
            self.lemma_level_transitive(&middle, old(self));
        }
        result
    }

    /// Ends a scope that began with `depth` frame slots in use: a scope
    /// that left no value gets `Nothing` for one, the value goes to the
    /// first slot of the scope, and the locals are dropped.
    fn finish_scope(&mut self, kept: bool, count: Option<u16>, depth: u16, at: Position, gc: &GC) -> (result:
        Result<(), CompileError>)
        requires
            old(self).wf(gc),
        ensures
            final(self).wf(gc),
            final(self).level_with(old(self)),
            final(self).compiled == old(self).compiled,
            final(self).advanced(
                old(self),
                result,
                scope_end(Seq::empty(), old(self).spec_depth(), kept, count, depth, at),
                depth + 1,
            ),
            final(self).constants() == old(self).constants(),
            result matches Err(error) ==> !(error.kind is TooManyConstants),
    {
        let now = self.depth();
        proof {
            self.lemma_level_reflexive();
        }
        if !kept {
            if now == u16::MAX {
                return self.fail(CompileErrorKind::TooManySlots, at);
            }
            self.emit_plain(Opcode::LoadNothing, at, gc);
        }
        let top = if kept {
            now
        } else {
            now + 1
        };
        let mismatch = match count {
            Some(n) => depth as usize + n as usize + 1 != top as usize,
            None => false,
        };
        if mismatch || top <= depth {
            return self.fail(CompileErrorKind::SlotMismatch, at);
        }
        let locals = top - depth - 1;
        let ghost first = *self;
        if locals > 0 {
            self.emit_plain(Opcode::StoreLocal(depth), at, gc);
            let ghost second = *self;
            proof {
                second.lemma_level_transitive(&first, old(self));
            }
            if locals > 1 {
                self.emit_plain(Opcode::Pop(locals - 1), at, gc);
                proof {
                    self.lemma_level_transitive(&second, old(self));
                }
            }
        }
        let ghost third = *self;
        self.set_depth(depth + 1, gc);
        proof {
            self.lemma_level_transitive(&third, old(self));
            let expected = scope_end(Seq::empty(), old(self).spec_depth(), kept, count, depth, at)->Ok_0;
            assert(self.code() =~= old(self).code() + expected);
        }
        Ok(())
    }

    /// Compiles an arithmetic operator or a comparison: both operands,
    /// and the instruction.
    fn compile_arithmetic(&mut self, e: &Expr, gc: &mut GC) -> (result: Result<(), CompileError>)
        requires
            old(self).wf(old(gc)),
            *e matches Expr::Binary(op, _, _) && spec_operator_opcode(op.kind) is Some,
        ensures
            final(self).wf(final(gc)),
            final(self).level_with(old(self)),
            old(gc).preserved_in(final(gc)),
            final(self).advanced(
                old(self),
                result,
                binary_code(*e, old(self).table(), old(self).closed(), old(self).spec_depth()),
                old(self).spec_depth() + 1,
            ),
            final(self).within(old(self), result, expr_constants(*e)),
        decreases e, 0nat,
    {
        proof {
            self.lemma_level_reflexive();
        }
        let (op, lhs, rhs) = match e {
            Expr::Binary(op, lhs, rhs) => (op, lhs, rhs),
            _ => {
                return self.fail(CompileErrorKind::MalformedToken, first_position(e));
            },
        };
        let at = op.position;
        let depth = self.depth();
        let ghost table = self.table();
        let ghost closed = self.closed();
        let opcode = match operator_opcode(&op.kind) {
            Some(opcode) => opcode,
            None => {
                return self.fail(CompileErrorKind::MalformedToken, at);
            },
        };
        match self.compile_expr(lhs, gc) {
            Ok(_) => {},
            Err(error) => {
                return Err(error);
            },
        }
        let ghost first = *self;
        match self.compile_expr(rhs, gc) {
            Ok(_) => {},
            Err(error) => {
                proof {
                    self.lemma_level_transitive(&first, old(self));
                }
                return Err(error);
            },
        }
        let ghost second = *self;
        self.emit_plain(opcode, at, gc);
        let ghost third = *self;
        self.set_depth(depth + 1, gc);
        proof {
            second.lemma_level_transitive(&first, old(self));
            third.lemma_level_transitive(&second, old(self));
            self.lemma_level_transitive(&third, old(self));
            let left = expr_code(**lhs, table, closed, depth)->Ok_0;
            let right = expr_code(**rhs, table, closed, (depth + 1) as u16)->Ok_0;
            assert(self.code() =~= old(self).code() + (left + right).push(plain(opcode, at)));
        }
        Ok(())
    }

    /// Compiles `and` or `or`: the left operand, a jump over the right
    /// operand where the left one decides, the right operand, and what
    /// leaves one or zero.
    #[verifier::rlimit(80)]
    fn compile_logical(&mut self, e: &Expr, gc: &mut GC) -> (result: Result<(), CompileError>)
        requires
            old(self).wf(old(gc)),
            *e matches Expr::Binary(op, _, _) && spec_operator_opcode(op.kind) is None,
        ensures
            final(self).wf(final(gc)),
            final(self).level_with(old(self)),
            old(gc).preserved_in(final(gc)),
            final(self).advanced(
                old(self),
                result,
                binary_code(*e, old(self).table(), old(self).closed(), old(self).spec_depth()),
                old(self).spec_depth() + 1,
            ),
            final(self).within(old(self), result, expr_constants(*e)),
        decreases e, 0nat,
    {
        proof {
            self.lemma_level_reflexive();
        }
        let (op, lhs, rhs) = match e {
            Expr::Binary(op, lhs, rhs) => (op, lhs, rhs),
            _ => {
                return self.fail(CompileErrorKind::MalformedToken, first_position(e));
            },
        };
        let at = op.position;
        let depth = self.depth();
        let ghost table = self.table();
        let ghost closed = self.closed();
        let is_or = match op.kind {
            TokenKind::And => false,
            TokenKind::Or => true,
            _ => {
                return self.fail(CompileErrorKind::MalformedToken, at);
            },
        };
        let ghost negate: Seq<Emission> = if is_or {
            seq![plain(Opcode::Not, at)]
        } else {
            Seq::empty()
        };
        match self.compile_expr(lhs, gc) {
            Ok(_) => {},
            Err(error) => {
                return Err(error);
            },
        }
        let ghost left = expr_code(**lhs, table, closed, depth)->Ok_0;
        let ghost s1 = *self;
        let ghost start = old(self).code();
        self.negate(is_or, at, gc);
        let ghost s2 = *self;
        let first = self.here(gc);
        self.emit_plain(Opcode::JumpIfFalse(0), at, gc);
        let ghost s3 = *self;
        self.set_depth(depth, gc);
        let ghost s4 = *self;
        proof {
            s2.lemma_level_transitive(&s1, old(self));
            s3.lemma_level_transitive(&s2, old(self));
            s4.lemma_level_transitive(&s3, old(self));
            assert(s4.code() =~= (start + left + negate).push(plain(Opcode::JumpIfFalse(0), at)));
        }
        match self.compile_expr(rhs, gc) {
            Ok(_) => {},
            Err(error) => {
                proof {
                    self.lemma_level_transitive(&s4, old(self));
                }
                return Err(error);
            },
        }
        let ghost right = expr_code(**rhs, table, closed, depth)->Ok_0;
        let ghost s5 = *self;
        self.negate(is_or, at, gc);
        let ghost s6 = *self;
        self.emit_plain(Opcode::JumpIfFalse(2), at, gc);
        let ghost s7 = *self;
        self.emit_plain(
            Opcode::LoadImmediateInt(
                if is_or {
                    0
                } else {
                    1
                },
            ),
            at,
            gc,
        );
        let ghost s8 = *self;
        self.emit_plain(Opcode::Jump(1), at, gc);
        let ghost s9 = *self;
        proof {
            s5.lemma_level_transitive(&s4, old(self));
            s6.lemma_level_transitive(&s5, old(self));
            s7.lemma_level_transitive(&s6, old(self));
            s8.lemma_level_transitive(&s7, old(self));
            s9.lemma_level_transitive(&s8, old(self));
            assert(first == (start + left + negate).len());
            assert(s9.code() =~= (start + left + negate).push(plain(Opcode::JumpIfFalse(0), at)) + (
            right + negate + seq![
                plain(Opcode::JumpIfFalse(2), at),
                plain(
                    Opcode::LoadImmediateInt(
                        if is_or {
                            0
                        } else {
                            1
                        },
                    ),
                    at,
                ),
                plain(Opcode::Jump(1), at),
            ]));
            assert(s9.code().len() - first - 1 == right.len() + negate.len() + 3);
        }
        match self.patch(first, at, gc) {
            Ok(_) => {},
            Err(error) => {
                proof {
                    self.lemma_level_transitive(&s9, old(self));
                }
                return Err(error);
            },
        }
        let ghost s10 = *self;
        self.emit_plain(
            Opcode::LoadImmediateInt(
                if is_or {
                    1
                } else {
                    0
                },
            ),
            at,
            gc,
        );
        let ghost s11 = *self;
        self.set_depth(depth + 1, gc);
        proof {
            s10.lemma_level_transitive(&s9, old(self));
            s11.lemma_level_transitive(&s10, old(self));
            self.lemma_level_transitive(&s11, old(self));
            let expected = binary_code(*e, table, closed, depth)->Ok_0;
            let jump = plain(Opcode::JumpIfFalse((right.len() + negate.len() + 3) as u16), at);
            lemma_patch_between(
                start + left + negate,
                plain(Opcode::JumpIfFalse(0), at),
                right + negate + seq![
                    plain(Opcode::JumpIfFalse(2), at),
                    plain(
                        Opcode::LoadImmediateInt(
                            if is_or {
                                0
                            } else {
                                1
                            },
                        ),
                        at,
                    ),
                    plain(Opcode::Jump(1), at),
                ],
                jump,
            );
            assert(self.code() =~= start + expected);
        }
        Ok(())
    }

    /// Emits `Not` where `wanted` holds.
    fn negate(&mut self, wanted: bool, at: Position, gc: &GC)
        requires
            old(self).wf(gc),
        ensures
            final(self).wf(gc),
            final(self).level_with(old(self)),
            final(self).compiled == old(self).compiled,
            final(self).constants() == old(self).constants(),
            final(self).spec_depth() == old(self).spec_depth(),
            final(self).code() == old(self).code() + if wanted {
                seq![plain(Opcode::Not, at)]
            } else {
                Seq::empty()
            },
    {
        proof {
            self.lemma_level_reflexive();
        }
        if wanted {
            self.emit_plain(Opcode::Not, at, gc);
            assert(self.code() =~= old(self).code() + seq![plain(Opcode::Not, at)]);
        } else {
            assert(self.code() =~= old(self).code() + Seq::<Emission>::empty());
        }
    }

    /// Compiles a conditional: the test, a jump over the first branch
    /// where the test is false, the first branch, a jump over the second
    /// branch, and the second branch, or `Nothing` where there is none.
    fn compile_if(&mut self, e: &Expr, gc: &mut GC) -> (result: Result<(), CompileError>)
        requires
            old(self).wf(old(gc)),
            *e is If,
        ensures
            final(self).wf(final(gc)),
            final(self).level_with(old(self)),
            old(gc).preserved_in(final(gc)),
            final(self).advanced(
                old(self),
                result,
                expr_code(*e, old(self).table(), old(self).closed(), old(self).spec_depth()),
                old(self).spec_depth() + 1,
            ),
            final(self).within(old(self), result, expr_constants(*e)),
        decreases e, 0nat,
    {
        proof {
            self.lemma_level_reflexive();
        }
        let (condition, then_branch, else_branch) = match e {
            Expr::If(condition, then_branch, else_branch) => (condition, then_branch, else_branch),
            _ => {
                return self.fail(CompileErrorKind::MalformedToken, first_position(e));
            },
        };
        let depth = self.depth();
        let at = first_position(condition);
        let ghost table = self.table();
        let ghost closed = self.closed();
        match self.compile_expr(condition, gc) {
            Ok(_) => {},
            Err(error) => {
                return Err(error);
            },
        }
        let ghost s1 = *self;
        let to_else = self.here(gc);
        self.emit_plain(Opcode::JumpIfFalse(0), at, gc);
        let ghost s2 = *self;
        self.set_depth(depth, gc);
        let ghost s3 = *self;
        proof {
            s2.lemma_level_transitive(&s1, old(self));
            s3.lemma_level_transitive(&s2, old(self));
        }
        match self.compile_expr(then_branch, gc) {
            Ok(_) => {},
            Err(error) => {
                proof {
                    self.lemma_level_transitive(&s3, old(self));
                }
                return Err(error);
            },
        }
        let ghost s4 = *self;
        let to_end = self.here(gc);
        self.emit_plain(Opcode::Jump(0), at, gc);
        let ghost s5 = *self;
        proof {
            s4.lemma_level_transitive(&s3, old(self));
            s5.lemma_level_transitive(&s4, old(self));
        }
        match self.patch(to_else, at, gc) {
            Ok(_) => {},
            Err(error) => {
                proof {
                    self.lemma_level_transitive(&s5, old(self));
                }
                return Err(error);
            },
        }
        let ghost s6 = *self;
        self.set_depth(depth, gc);
        let ghost s7 = *self;
        proof {
            s6.lemma_level_transitive(&s5, old(self));
            s7.lemma_level_transitive(&s6, old(self));
        }
        match else_branch {
            Some(otherwise) => match self.compile_expr(otherwise, gc) {
                Ok(_) => {},
                Err(error) => {
                    proof {
                        self.lemma_level_transitive(&s7, old(self));
                    }
                    return Err(error);
                },
            },
            None => {
                self.emit_plain(Opcode::LoadNothing, at, gc);
                let ghost s8 = *self;
                proof {
                    s8.lemma_level_transitive(&s7, old(self));
                }
                self.set_depth(depth + 1, gc);
                proof {
                    self.lemma_level_transitive(&s8, old(self));
                }
            },
        }
        let ghost s9 = *self;
        proof {
            if else_branch is Some {
                s9.lemma_level_transitive(&s7, old(self));
            }
        }
        let result = self.patch(to_end, at, gc);
        proof {
            self.lemma_level_transitive(&s9, old(self));
            if result is Ok {
                let expected = expr_code(*e, table, closed, depth)->Ok_0;
                assert(self.code() =~= old(self).code() + expected);
            }
        }
        result
    }

    /// Compiles a call: the callee, the arguments from left to right, and
    /// `Call` with their number.
    fn compile_call(&mut self, e: &Expr, gc: &mut GC) -> (result: Result<(), CompileError>)
        requires
            old(self).wf(old(gc)),
            *e is Call,
        ensures
            final(self).wf(final(gc)),
            final(self).level_with(old(self)),
            old(gc).preserved_in(final(gc)),
            final(self).advanced(
                old(self),
                result,
                expr_code(*e, old(self).table(), old(self).closed(), old(self).spec_depth()),
                old(self).spec_depth() + 1,
            ),
            final(self).within(old(self), result, expr_constants(*e)),
        decreases e, 0nat,
    {
        proof {
            self.lemma_level_reflexive();
        }
        let (callee, args) = match e {
            Expr::Call(callee, args) => (callee, args),
            _ => {
                return self.fail(CompileErrorKind::MalformedToken, first_position(e));
            },
        };
        let depth = self.depth();
        let at = first_position(callee);
        let ghost table = self.table();
        let ghost closed = self.closed();
        match self.compile_expr(callee, gc) {
            Ok(_) => {},
            Err(error) => {
                return Err(error);
            },
        }
        if args.len() > u16::MAX as usize {
            return self.fail(CompileErrorKind::TooManyArguments, at);
        }
        let ghost callee_code = expr_code(**callee, table, closed, depth)->Ok_0;
        let mut i: usize = 0;
        proof {
            assert(self.code() =~= old(self).code() + callee_code + Seq::<Emission>::empty());
        }
        while i < args.len()
            invariant
                i <= args.len(),
                args@.len() <= u16::MAX,
                decreases_to!(e => args),
                self.wf(gc),
                self.level_with(old(self)),
                old(gc).preserved_in(gc),
                table == old(self).table(),
                closed == old(self).closed(),
                depth == old(self).spec_depth(),
                depth < u16::MAX,
                expr_code(**callee, table, closed, depth) is Ok,
                callee_code == expr_code(**callee, table, closed, depth)->Ok_0,
                at == spec_first_position(**callee),
                *e == Expr::Call(*callee, *args),
                args_code(args@, i as nat, table, closed, (depth + 1) as u16) is Ok,
                self.code() == old(self).code() + callee_code + args_code(
                    args@,
                    i as nat,
                    table,
                    closed,
                    (depth + 1) as u16,
                )->Ok_0,
                self.spec_depth() == depth + 1 + i,
                self.constants().len() <= old(self).constants().len() + expr_constants(**callee)
                    + args_constants(args@, i as nat),
            decreases args.len() - i,
        {
            proof {
                assert(decreases_to!(args => args[i as int]));
            }
            let ghost before = *self;
            let ghost so_far = args_code(args@, i as nat, table, closed, (depth + 1) as u16)->Ok_0;
            proof {
                lemma_args_constants_grow(args@, (i + 1) as nat, args@.len());
            }
            match self.compile_expr(&args[i], gc) {
                Ok(_) => {},
                Err(error) => {
                    proof {
                        self.lemma_level_transitive(&before, old(self));
                        if args_code(args@, (i + 1) as nat, table, closed, (depth + 1) as u16) is Err {
                            lemma_args_code_fails(
                                args@,
                                (i + 1) as nat,
                                args@.len(),
                                table,
                                closed,
                                (depth + 1) as u16,
                            );
                        }
                    }
                    return Err(error);
                },
            }
            proof {
                self.lemma_level_transitive(&before, old(self));
                let code = expr_code(args@[i as int], table, closed, (depth + 1 + i) as u16)->Ok_0;
                assert(self.code() =~= old(self).code() + callee_code + (so_far + code));
            }
            i += 1;
        }
        let ghost s1 = *self;
        self.emit_plain(Opcode::Call(args.len() as u16), at, gc);
        let ghost s2 = *self;
        self.set_depth(depth + 1, gc);
        proof {
            s2.lemma_level_transitive(&s1, old(self));
            self.lemma_level_transitive(&s2, old(self));
            let expected = expr_code(*e, table, closed, depth)->Ok_0;
            assert(self.code() =~= old(self).code() + expected);
        }
        Ok(())
    }

    /// Compiles a partial call: the callee, the arguments from left to
    /// right with the hole marker for each that is missing, and
    /// `PartialCall` with their number.
    fn compile_partial_call(&mut self, e: &Expr, gc: &mut GC) -> (result: Result<(), CompileError>)
        requires
            old(self).wf(old(gc)),
            *e is PartialCall,
        ensures
            final(self).wf(final(gc)),
            final(self).level_with(old(self)),
            old(gc).preserved_in(final(gc)),
            final(self).advanced(
                old(self),
                result,
                expr_code(*e, old(self).table(), old(self).closed(), old(self).spec_depth()),
                old(self).spec_depth() + 1,
            ),
            final(self).within(old(self), result, expr_constants(*e)),
        decreases e, 0nat,
    {
        proof {
            self.lemma_level_reflexive();
        }
        let (callee, args) = match e {
            Expr::PartialCall(callee, args) => (callee, args),
            _ => {
                return self.fail(CompileErrorKind::MalformedToken, first_position(e));
            },
        };
        let depth = self.depth();
        let at = first_position(callee);
        let ghost table = self.table();
        let ghost closed = self.closed();
        match self.compile_expr(callee, gc) {
            Ok(_) => {},
            Err(error) => {
                return Err(error);
            },
        }
        if args.len() > u16::MAX as usize {
            return self.fail(CompileErrorKind::TooManyArguments, at);
        }
        let ghost callee_code = expr_code(**callee, table, closed, depth)->Ok_0;
        let mut i: usize = 0;
        proof {
            assert(self.code() =~= old(self).code() + callee_code + Seq::<Emission>::empty());
        }
        while i < args.len()
            invariant
                i <= args.len(),
                args@.len() <= u16::MAX,
                decreases_to!(e => args),
                self.wf(gc),
                self.level_with(old(self)),
                old(gc).preserved_in(gc),
                table == old(self).table(),
                closed == old(self).closed(),
                depth == old(self).spec_depth(),
                depth < u16::MAX,
                expr_code(**callee, table, closed, depth) is Ok,
                callee_code == expr_code(**callee, table, closed, depth)->Ok_0,
                at == spec_first_position(**callee),
                *e == Expr::PartialCall(*callee, *args),
                optional_args_code(args@, i as nat, table, closed, (depth + 1) as u16, at) is Ok,
                self.code() == old(self).code() + callee_code + optional_args_code(
                    args@,
                    i as nat,
                    table,
                    closed,
                    (depth + 1) as u16,
                    at,
                )->Ok_0,
                self.spec_depth() == depth + 1 + i,
                self.constants().len() <= old(self).constants().len() + expr_constants(**callee)
                    + optional_args_constants(args@, i as nat),
            decreases args.len() - i,
        {
            proof {
                assert(decreases_to!(args => args[i as int]));
            }
            let ghost before = *self;
            let ghost so_far = optional_args_code(
                args@,
                i as nat,
                table,
                closed,
                (depth + 1) as u16,
                at,
            )->Ok_0;
            let now = self.depth();
            proof {
                lemma_optional_args_constants_grow(args@, (i + 1) as nat, args@.len());
            }
            let outcome = match &args[i] {
                Some(arg) => self.compile_expr(arg, gc),
                None => {
                    if now == u16::MAX {
                        proof {
                            self.lemma_level_reflexive();
                        }
                        self.fail(CompileErrorKind::TooManySlots, at)
                    } else {
                        self.emit_plain(Opcode::LoadHole, at, gc);
                        let ghost s = *self;
                        self.set_depth(now + 1, gc);
                        proof {
                            self.lemma_level_transitive(&s, &before);
                        }
                        Ok(())
                    }
                },
            };
            match outcome {
                Ok(_) => {},
                Err(error) => {
                    proof {
                        self.lemma_level_transitive(&before, old(self));
                        if optional_args_code(
                            args@,
                            (i + 1) as nat,
                            table,
                            closed,
                            (depth + 1) as u16,
                            at,
                        ) is Err {
                            lemma_optional_args_code_fails(
                                args@,
                                (i + 1) as nat,
                                args@.len(),
                                table,
                                closed,
                                (depth + 1) as u16,
                                at,
                            );
                        }
                    }
                    return Err(error);
                },
            }
            proof {
                self.lemma_level_transitive(&before, old(self));
                let next = optional_args_code(
                    args@,
                    (i + 1) as nat,
                    table,
                    closed,
                    (depth + 1) as u16,
                    at,
                )->Ok_0;
                assert(self.code() =~= old(self).code() + callee_code + next);
            }
            i += 1;
        }
        let ghost s1 = *self;
        self.emit_plain(Opcode::PartialCall(args.len() as u16), at, gc);
        let ghost s2 = *self;
        self.set_depth(depth + 1, gc);
        proof {
            s2.lemma_level_transitive(&s1, old(self));
            self.lemma_level_transitive(&s2, old(self));
            let expected = expr_code(*e, table, closed, depth)->Ok_0;
            assert(self.code() =~= old(self).code() + expected);
        }
        Ok(())
    }

    /// Whether `self` is `before` after a statement or statements, as
    /// `result` reports: where the work got done, the instructions were
    /// emitted, the frame slots in use are as expected, and the result
    /// says whether a value was left; where it failed, it failed as
    /// expected.
    pub open spec fn progressed(
        &self,
        before: &Compiler,
        result: Result<bool, CompileError>,
        expected: Result<(Seq<Emission>, u16, bool), CompileError>,
    ) -> bool {
        &&& fails_as(result, expected)
        &&& result matches Ok(kept) ==> self.code() == before.code() + expected->Ok_0.0
            && self.spec_depth() == expected->Ok_0.1 && kept == expected->Ok_0.2
    }

    /// Compiles the statements of a scope in order. The last one may
    /// leave its value on the stack.
    fn compile_stmts(&mut self, stmts: &Vec<Stmt>, gc: &mut GC) -> (result: Result<bool, CompileError>)
        requires
            old(self).wf(old(gc)),
        ensures
            final(self).wf(final(gc)),
            final(self).level_with(old(self)),
            old(gc).preserved_in(final(gc)),
            final(self).progressed(
                old(self),
                result,
                stmts_code(
                    stmts@,
                    stmts@.len(),
                    old(self).table(),
                    old(self).closed(),
                    old(self).spec_depth(),
                ),
            ),
            final(self).within(old(self), result, stmts_constants(stmts@, stmts@.len())),
        decreases stmts, 2nat,
    {
        let depth = self.depth();
        let ghost table = self.table();
        let ghost closed = self.closed();
        let mut kept = false;
        let mut i: usize = 0;
        proof {
            self.lemma_level_reflexive();
            assert(self.code() =~= old(self).code() + Seq::<Emission>::empty());
        }
        while i < stmts.len()
            invariant
                i <= stmts.len(),
                self.wf(gc),
                self.level_with(old(self)),
                old(gc).preserved_in(gc),
                table == old(self).table(),
                closed == old(self).closed(),
                depth == old(self).spec_depth(),
                stmts_code(stmts@, i as nat, table, closed, depth) is Ok,
                self.code() == old(self).code() + stmts_code(
                    stmts@,
                    i as nat,
                    table,
                    closed,
                    depth,
                )->Ok_0.0,
                self.spec_depth() == stmts_code(stmts@, i as nat, table, closed, depth)->Ok_0.1,
                kept == stmts_code(stmts@, i as nat, table, closed, depth)->Ok_0.2,
                self.constants().len() <= old(self).constants().len() + stmts_constants(
                    stmts@,
                    i as nat,
                ),
            decreases stmts.len() - i,
        {
            let last = i + 1 == stmts.len();
            let ghost before = *self;
            let ghost so_far = stmts_code(stmts@, i as nat, table, closed, depth)->Ok_0;
            kept = match self.compile_stmt(&stmts[i], last, gc) {
                Ok(kept) => kept,
                Err(error) => {
                    proof {
                        self.lemma_level_transitive(&before, old(self));
                        lemma_stmts_constants_grow(stmts@, (i + 1) as nat, stmts@.len());
                        if stmts_code(stmts@, (i + 1) as nat, table, closed, depth) is Err {
                            lemma_stmts_code_fails(
                                stmts@,
                                (i + 1) as nat,
                                stmts@.len(),
                                table,
                                closed,
                                depth,
                            );
                        }
                    }
                    return Err(error);
                },
            };
            proof {
                self.lemma_level_transitive(&before, old(self));
                let step = stmt_code(stmts@[i as int], last, table, closed, so_far.1)->Ok_0;
                assert(self.code() =~= old(self).code() + (so_far.0 + step.0));
            }
            i += 1;
        }
        Ok(kept)
    }

    /// Compiles the methods of an implementation block: each function
    /// value, and `SetMethod` with its name.
    fn compile_methods(&mut self, methods: &Vec<Stmt>, gc: &mut GC) -> (result: Result<
        (),
        CompileError,
    >)
        requires
            old(self).wf(old(gc)),
        ensures
            final(self).wf(final(gc)),
            final(self).level_with(old(self)),
            old(gc).preserved_in(final(gc)),
            final(self).advanced(
                old(self),
                result,
                methods_code(methods@, methods@.len(), old(self).table(), old(self).spec_depth()),
                old(self).spec_depth() as int,
            ),
            final(self).within(old(self), result, stmts_constants(methods@, methods@.len())),
        decreases methods, 2nat,
    {
        let depth = self.depth();
        let ghost table = self.table();
        let mut i: usize = 0;
        proof {
            self.lemma_level_reflexive();
            assert(self.code() =~= old(self).code() + Seq::<Emission>::empty());
        }
        while i < methods.len()
            invariant
                i <= methods.len(),
                self.wf(gc),
                self.level_with(old(self)),
                old(gc).preserved_in(gc),
                table == old(self).table(),
                depth == old(self).spec_depth(),
                methods_code(methods@, i as nat, table, depth) is Ok,
                self.code() == old(self).code() + methods_code(methods@, i as nat, table, depth)->Ok_0,
                self.spec_depth() == depth,
                self.constants().len() <= old(self).constants().len() + stmts_constants(
                    methods@,
                    i as nat,
                ),
            decreases methods.len() - i,
        {
            let ghost before = *self;
            let ghost so_far = methods_code(methods@, i as nat, table, depth)->Ok_0;
            proof {
                lemma_stmts_constants_grow(methods@, (i + 1) as nat, methods@.len());
                assert(stmts_constants(methods@, (i + 1) as nat) == stmts_constants(
                    methods@,
                    i as nat,
                ) + stmt_constants(methods@[i as int]));
            }
            match &methods[i] {
                Stmt::FunctionDeclaration { name, args, vararg, body } => {
                    proof {
                        assert(decreases_to!(methods => methods[i as int]));
                    }
                    let text = name.name_string();
                    match self.compile_function_value(
                        name.position,
                        name.name_string(),
                        args,
                        vararg.as_ref(),
                        body,
                        name.position,
                        gc,
                    ) {
                        Ok(_) => {},
                        Err(error) => {
                            proof {
                                self.lemma_level_transitive(&before, old(self));
                                if methods_code(methods@, (i + 1) as nat, table, depth) is Err {
                                    lemma_methods_code_fails(
                                        methods@,
                                        (i + 1) as nat,
                                        methods@.len(),
                                        table,
                                        depth,
                                    );
                                }
                            }
                            return Err(error);
                        },
                    }
                    let ghost s1 = *self;
                    proof {
                        s1.lemma_level_transitive(&before, old(self));
                    }
                    match self.emit_text(TextUse::SetMethod, &text, name.position, gc) {
                        Ok(_) => {},
                        Err(error) => {
                            proof {
                                self.lemma_level_transitive(&s1, old(self));
                            }
                            return Err(error);
                        },
                    }
                    let ghost s2 = *self;
                    self.set_depth(depth, gc);
                    proof {
                        s2.lemma_level_transitive(&s1, old(self));
                        self.lemma_level_transitive(&s2, old(self));
                        let next = methods_code(methods@, (i + 1) as nat, table, depth)->Ok_0;
                        assert(self.code() =~= old(self).code() + next);
                    }
                },
                _ => {},
            }
            i += 1;
        }
        Ok(())
    }

    /// Compiles a statement. What it emits leaves the stack as it was,
    /// but for the local of a declaration, and but for the value of an
    /// expression statement where `keep` asks for it; the result says
    /// whether such a value was left.
    fn compile_stmt(&mut self, s: &Stmt, keep: bool, gc: &mut GC) -> (result: Result<
        bool,
        CompileError,
    >)
        requires
            old(self).wf(old(gc)),
        ensures
            final(self).wf(final(gc)),
            final(self).level_with(old(self)),
            old(gc).preserved_in(final(gc)),
            final(self).progressed(
                old(self),
                result,
                stmt_code(*s, keep, old(self).table(), old(self).closed(), old(self).spec_depth()),
            ),
            final(self).within(old(self), result, stmt_constants(*s)),
        decreases s, 1nat,
    {
        match s {
            Stmt::Print(_, _) => self.compile_simple_stmt(s, keep, gc),
            Stmt::VarDeclaration(_, _) => self.compile_var_declaration(s, keep, gc),
            Stmt::Assignment(_, _) => self.compile_assignment(s, keep, gc),
            Stmt::PropertyAssignment(_, _) => self.compile_assignment(s, keep, gc),
            Stmt::Expression(_) => self.compile_simple_stmt(s, keep, gc),
            Stmt::Assert(_, _) => self.compile_simple_stmt(s, keep, gc),
            Stmt::Pass(_) => self.compile_simple_stmt(s, keep, gc),
            Stmt::FunctionDeclaration { name, args, vararg, body } => self.compile_function_declaration(
                s,
                keep,
                gc,
            ),
            Stmt::StructDeclaration { name, fields } => self.compile_type_declaration(s, keep, gc),
            Stmt::EnumDeclaration { name, variants } => self.compile_type_declaration(s, keep, gc),
            Stmt::ImplBlock { name, implementations } => self.compile_impl_block(s, keep, gc),
        }
    }

    /// Compiles a statement that prints, asserts, evaluates or does nothing.
    fn compile_simple_stmt(&mut self, s: &Stmt, keep: bool, gc: &mut GC) -> (result: Result<
        bool,
        CompileError,
    >)
        requires
            old(self).wf(old(gc)),
            *s is Print || *s is Expression || *s is Assert || *s is Pass,
        ensures
            final(self).wf(final(gc)),
            final(self).level_with(old(self)),
            old(gc).preserved_in(final(gc)),
            final(self).progressed(
                old(self),
                result,
                stmt_code(*s, keep, old(self).table(), old(self).closed(), old(self).spec_depth()),
            ),
            final(self).within(old(self), result, stmt_constants(*s)),
        decreases s, 0nat,
    {
        let depth = self.depth();
        let ghost table = self.table();
        let ghost closed = self.closed();
        proof {
            self.lemma_level_reflexive();
        }
        match s {
            Stmt::Print(token, e) => {
                match self.compile_expr(e, gc) {
                    Ok(_) => {},
                    Err(error) => {
                        return Err(error);
                    },
                }
                let ghost s1 = *self;
                self.emit_plain(Opcode::Print, token.position, gc);
                let ghost s2 = *self;
                self.set_depth(depth, gc);
                proof {
                    s2.lemma_level_transitive(&s1, old(self));
                    self.lemma_level_transitive(&s2, old(self));
                }
                Ok(false)
            },
            Stmt::Expression(e) => {
                match self.compile_expr(e, gc) {
                    Ok(_) => {},
                    Err(error) => {
                        return Err(error);
                    },
                }
                if keep {
                    Ok(true)
                } else {
                    let ghost s1 = *self;
                    self.emit_plain(Opcode::Pop(1), first_position(e), gc);
                    let ghost s2 = *self;
                    self.set_depth(depth, gc);
                    proof {
                        s2.lemma_level_transitive(&s1, old(self));
                        self.lemma_level_transitive(&s2, old(self));
                    }
                    Ok(false)
                }
            },
            Stmt::Assert(token, e) => {
                match self.compile_expr(e, gc) {
                    Ok(_) => {},
                    Err(error) => {
                        return Err(error);
                    },
                }
                let ghost s1 = *self;
                self.emit_plain(Opcode::Assert, token.position, gc);
                let ghost s2 = *self;
                self.set_depth(depth, gc);
                proof {
                    s2.lemma_level_transitive(&s1, old(self));
                    self.lemma_level_transitive(&s2, old(self));
                }
                Ok(false)
            },
            Stmt::Pass(_) => {
                proof {
                    assert(self.code() =~= old(self).code() + Seq::<Emission>::empty());
                }
                Ok(false)
            },
            _ => {
                proof {
                    assert(false);
                }
                Ok(false)
            },
        }
    }

    /// Compiles the declaration of a variable: its value stays on the stack as the local, in a cell where an inner function captures it.
    fn compile_var_declaration(&mut self, s: &Stmt, keep: bool, gc: &mut GC) -> (result: Result<
        bool,
        CompileError,
    >)
        requires
            old(self).wf(old(gc)),
            *s is VarDeclaration,
        ensures
            final(self).wf(final(gc)),
            final(self).level_with(old(self)),
            old(gc).preserved_in(final(gc)),
            final(self).progressed(
                old(self),
                result,
                stmt_code(*s, keep, old(self).table(), old(self).closed(), old(self).spec_depth()),
            ),
            final(self).within(old(self), result, stmt_constants(*s)),
        decreases s, 0nat,
    {
        let depth = self.depth();
        let ghost table = self.table();
        let ghost closed = self.closed();
        proof {
            self.lemma_level_reflexive();
        }
        match s {
            Stmt::VarDeclaration(name, initializer) => {
                let at = name.position;
                match initializer {
                    Some(e) => match self.compile_expr(e, gc) {
                        Ok(_) => {},
                        Err(error) => {
                            return Err(error);
                        },
                    },
                    None => {
                        if depth == u16::MAX {
                            return self.fail(CompileErrorKind::TooManySlots, at);
                        }
                        self.emit_plain(Opcode::LoadNothing, at, gc);
                        let ghost s0 = *self;
                        self.set_depth(depth + 1, gc);
                        proof {
                            self.lemma_level_transitive(&s0, old(self));
                            assert(self.code() =~= old(self).code() + seq![
                                plain(Opcode::LoadNothing, at),
                            ]);
                        }
                    },
                }
                let ghost s1 = *self;
                match self.check_slot(name, depth) {
                    Ok(_) => {},
                    Err(error) => {
                        return Err(error);
                    },
                }
                let text = name.name_string();
                if self.is_closed(&text) {
                    self.emit_plain(Opcode::MakeCell, at, gc);
                    proof {
                        self.lemma_level_transitive(&s1, old(self));
                    }
                }
                proof {
                    let expected = stmt_code(*s, keep, table, closed, depth)->Ok_0;
                    assert(self.code() =~= old(self).code() + expected.0);
                }
                Ok(false)
            },
            _ => {
                proof {
                    assert(false);
                }
                Ok(false)
            },
        }
    }

    /// Compiles an assignment to a variable or to a property.
    fn compile_assignment(&mut self, s: &Stmt, keep: bool, gc: &mut GC) -> (result: Result<
        bool,
        CompileError,
    >)
        requires
            old(self).wf(old(gc)),
            *s is Assignment || *s is PropertyAssignment,
        ensures
            final(self).wf(final(gc)),
            final(self).level_with(old(self)),
            old(gc).preserved_in(final(gc)),
            final(self).progressed(
                old(self),
                result,
                stmt_code(*s, keep, old(self).table(), old(self).closed(), old(self).spec_depth()),
            ),
            final(self).within(old(self), result, stmt_constants(*s)),
        decreases s, 0nat,
    {
        let depth = self.depth();
        let ghost table = self.table();
        let ghost closed = self.closed();
        proof {
            self.lemma_level_reflexive();
        }
        match s {
            Stmt::Assignment(name, e) => {
                proof {
                    assert(stmt_constants(*s) == expr_constants(*e) + 1);
                }
                match self.compile_expr(e, gc) {
                    Ok(_) => {},
                    Err(error) => {
                        return Err(error);
                    },
                }
                let ghost s1 = *self;
                match self.store_variable(name, gc) {
                    Ok(_) => {},
                    Err(error) => {
                        proof {
                            self.lemma_level_transitive(&s1, old(self));
                        }
                        return Err(error);
                    },
                }
                proof {
                    self.lemma_level_transitive(&s1, old(self));
                    let expected = stmt_code(*s, keep, table, closed, depth)->Ok_0;
                    assert(self.code() =~= old(self).code() + expected.0);
                }
                Ok(false)
            },
            Stmt::PropertyAssignment(target, e) => {
                match target {
                    Expr::PropertyAccess(object, name) => {
                        proof {
                            assert(expr_constants(*target) == expr_constants(**object) + 1);
                            assert(stmt_constants(*s) == expr_constants(*target) + expr_constants(
                                *e,
                            ) + 1);
                        }
                        match self.compile_expr(object, gc) {
                            Ok(_) => {},
                            Err(error) => {
                                return Err(error);
                            },
                        }
                        let ghost s1 = *self;
                        match self.compile_expr(e, gc) {
                            Ok(_) => {},
                            Err(error) => {
                                proof {
                                    self.lemma_level_transitive(&s1, old(self));
                                }
                                return Err(error);
                            },
                        }
                        let ghost s2 = *self;
                        proof {
                            s2.lemma_level_transitive(&s1, old(self));
                        }
                        let text = name.name_string();
                        match self.emit_text(TextUse::SetProperty, &text, name.position, gc) {
                            Ok(_) => {},
                            Err(error) => {
                                proof {
                                    self.lemma_level_transitive(&s2, old(self));
                                }
                                return Err(error);
                            },
                        }
                        let ghost s3 = *self;
                        self.set_depth(depth, gc);
                        proof {
                            s3.lemma_level_transitive(&s2, old(self));
                            self.lemma_level_transitive(&s3, old(self));
                            let expected = stmt_code(*s, keep, table, closed, depth)->Ok_0;
                            assert(self.code() =~= old(self).code() + expected.0);
                        }
                        Ok(false)
                    },
                    _ => self.fail(
                        CompileErrorKind::InvalidAssignmentTarget,
                        first_position(target),
                    ),
                }
            },
            _ => {
                proof {
                    assert(false);
                }
                Ok(false)
            },
        }
    }

    /// Compiles the declaration of a function: its value stays on the stack as the local. Where the function or another inner function captures the local, the cell is made first, so that the function can capture it, and is filled afterwards.
    fn compile_function_declaration(&mut self, s: &Stmt, keep: bool, gc: &mut GC) -> (result: Result<
        bool,
        CompileError,
    >)
        requires
            old(self).wf(old(gc)),
            *s is FunctionDeclaration,
        ensures
            final(self).wf(final(gc)),
            final(self).level_with(old(self)),
            old(gc).preserved_in(final(gc)),
            final(self).progressed(
                old(self),
                result,
                stmt_code(*s, keep, old(self).table(), old(self).closed(), old(self).spec_depth()),
            ),
            final(self).within(old(self), result, stmt_constants(*s)),
        decreases s, 0nat,
    {
        let depth = self.depth();
        let ghost table = self.table();
        let ghost closed = self.closed();
        proof {
            self.lemma_level_reflexive();
        }
        match s {
            Stmt::FunctionDeclaration { name, args, vararg, body } => {
                let at = name.position;
                match self.check_slot(name, depth) {
                    Ok(_) => {},
                    Err(error) => {
                        return Err(error);
                    },
                }
                let text = name.name_string();
                let is_closed = self.is_closed(&text);
                if is_closed {
                    if depth == u16::MAX {
                        return self.fail(CompileErrorKind::TooManySlots, at);
                    }
                    self.emit_plain(Opcode::LoadNothing, at, gc);
                    let ghost s0 = *self;
                    self.emit_plain(Opcode::MakeCell, at, gc);
                    let ghost s1 = *self;
                    self.set_depth(depth + 1, gc);
                    proof {
                        s1.lemma_level_transitive(&s0, old(self));
                        self.lemma_level_transitive(&s1, old(self));
                    }
                }
                let ghost s2 = *self;
                match self.compile_function_value(at, text, args, vararg.as_ref(), body, at, gc) {
                    Ok(_) => {},
                    Err(error) => {
                        proof {
                            self.lemma_level_transitive(&s2, old(self));
                        }
                        return Err(error);
                    },
                }
                let ghost s3 = *self;
                proof {
                    s3.lemma_level_transitive(&s2, old(self));
                }
                if is_closed {
                    self.emit_plain(Opcode::LoadLocal(depth), at, gc);
                    let ghost s4 = *self;
                    self.emit_plain(Opcode::StoreCell, at, gc);
                    let ghost s5 = *self;
                    self.set_depth(depth + 1, gc);
                    proof {
                        s4.lemma_level_transitive(&s3, old(self));
                        s5.lemma_level_transitive(&s4, old(self));
                        self.lemma_level_transitive(&s5, old(self));
                    }
                }
                proof {
                    let expected = stmt_code(*s, keep, table, closed, depth)->Ok_0;
                    assert(self.code() =~= old(self).code() + expected.0);
                }
                Ok(false)
            },
            _ => {
                proof {
                    assert(false);
                }
                Ok(false)
            },
        }
    }

    /// Compiles the declaration of a struct or of an enumeration: the descriptor is stored on the heap and becomes the global of its name.
    fn compile_type_declaration(&mut self, s: &Stmt, keep: bool, gc: &mut GC) -> (result: Result<
        bool,
        CompileError,
    >)
        requires
            old(self).wf(old(gc)),
            *s is StructDeclaration || *s is EnumDeclaration,
        ensures
            final(self).wf(final(gc)),
            final(self).level_with(old(self)),
            old(gc).preserved_in(final(gc)),
            final(self).progressed(
                old(self),
                result,
                stmt_code(*s, keep, old(self).table(), old(self).closed(), old(self).spec_depth()),
            ),
            final(self).within(old(self), result, stmt_constants(*s)),
        decreases s, 0nat,
    {
        let depth = self.depth();
        let ghost table = self.table();
        let ghost closed = self.closed();
        proof {
            self.lemma_level_reflexive();
        }
        match s {
            Stmt::StructDeclaration { name, fields } => {
                let at = name.position;
                let ghost heap = *gc;
                let descriptor = StructDescriptor {
                    name: name.name_string(),
                    fields: token_names(fields),
                    methods: Vec::new(),
                    enum_descriptor: None,
                };
                let value = gc.store(OwnedObjectItem::StructDescriptor(descriptor));
                proof {
                    self.lemma_sound_in(&heap, gc);
                }
                let index = match self.constant(value, at, gc) {
                    Ok(index) => index,
                    Err(error) => {
                        return Err(error);
                    },
                };
                let ghost s1 = *self;
                self.emit(
                    Opcode::LoadConst(index),
                    at,
                    Ghost(Emitted::Struct(name.name(), names(fields@))),
                    gc,
                );
                let ghost s2 = *self;
                proof {
                    s2.lemma_level_transitive(&s1, old(self));
                }
                let text = name.name_string();
                match self.emit_text(TextUse::StoreGlobal, &text, at, gc) {
                    Ok(_) => {},
                    Err(error) => {
                        proof {
                            self.lemma_level_transitive(&s2, old(self));
                        }
                        return Err(error);
                    },
                }
                proof {
                    self.lemma_level_transitive(&s2, old(self));
                    let expected = stmt_code(*s, keep, table, closed, depth)->Ok_0;
                    assert(self.code() =~= old(self).code() + expected.0);
                }
                Ok(false)
            },
            Stmt::EnumDeclaration { name, variants } => {
                let at = name.position;
                let value = self.store_enum(name, variants, gc);
                let index = match self.constant(value, at, gc) {
                    Ok(index) => index,
                    Err(error) => {
                        return Err(error);
                    },
                };
                let ghost s1 = *self;
                self.emit(
                    Opcode::LoadConst(index),
                    at,
                    Ghost(Emitted::Enum(name.name(), variant_shapes(variants@))),
                    gc,
                );
                let ghost s2 = *self;
                proof {
                    s2.lemma_level_transitive(&s1, old(self));
                }
                let text = name.name_string();
                match self.emit_text(TextUse::StoreGlobal, &text, at, gc) {
                    Ok(_) => {},
                    Err(error) => {
                        proof {
                            self.lemma_level_transitive(&s2, old(self));
                        }
                        return Err(error);
                    },
                }
                proof {
                    self.lemma_level_transitive(&s2, old(self));
                    let expected = stmt_code(*s, keep, table, closed, depth)->Ok_0;
                    assert(self.code() =~= old(self).code() + expected.0);
                }
                Ok(false)
            },
            _ => {
                proof {
                    assert(false);
                }
                Ok(false)
            },
        }
    }

    /// Compiles an implementation block: the descriptor is loaded, each method is made and set, and the descriptor is dropped.
    fn compile_impl_block(&mut self, s: &Stmt, keep: bool, gc: &mut GC) -> (result: Result<
        bool,
        CompileError,
    >)
        requires
            old(self).wf(old(gc)),
            *s is ImplBlock,
        ensures
            final(self).wf(final(gc)),
            final(self).level_with(old(self)),
            old(gc).preserved_in(final(gc)),
            final(self).progressed(
                old(self),
                result,
                stmt_code(*s, keep, old(self).table(), old(self).closed(), old(self).spec_depth()),
            ),
            final(self).within(old(self), result, stmt_constants(*s)),
        decreases s, 0nat,
    {
        let depth = self.depth();
        let ghost table = self.table();
        let ghost closed = self.closed();
        proof {
            self.lemma_level_reflexive();
        }
        match s {
            Stmt::ImplBlock { name, implementations } => {
                let at = name.position;
                match self.load_variable(name, gc) {
                    Ok(_) => {},
                    Err(error) => {
                        return Err(error);
                    },
                }
                let ghost s1 = *self;
                match self.compile_methods(implementations, gc) {
                    Ok(_) => {},
                    Err(error) => {
                        proof {
                            self.lemma_level_transitive(&s1, old(self));
                        }
                        return Err(error);
                    },
                }
                let ghost s2 = *self;
                self.emit_plain(Opcode::Pop(1), at, gc);
                let ghost s3 = *self;
                self.set_depth(depth, gc);
                proof {
                    s2.lemma_level_transitive(&s1, old(self));
                    s3.lemma_level_transitive(&s2, old(self));
                    self.lemma_level_transitive(&s3, old(self));
                    let expected = stmt_code(*s, keep, table, closed, depth)->Ok_0;
                    assert(self.code() =~= old(self).code() + expected.0);
                }
                Ok(false)
            },
            _ => {
                proof {
                    assert(false);
                }
                Ok(false)
            },
        }
    }

    /// Checks that a declaration stands in the frame slot that the
    /// analysis gave it.
    fn check_slot(&self, name: &Token, depth: u16) -> (result: Result<(), CompileError>)
        ensures
            result == slot_check(*name, self.table(), depth),
            result matches Err(error) ==> !(error.kind is TooManyConstants),
    {
        let at = name.position;
        match self.annotations.variable_kind(at) {
            Some(VariableKind::Local(slot)) => {
                if slot != depth {
                    return self.fail(CompileErrorKind::SlotMismatch, at);
                }
                Ok(())
            },
            Some(_) => self.fail(CompileErrorKind::SlotMismatch, at),
            None => self.fail(CompileErrorKind::MissingAnnotation, at),
        }
    }

    /// Stores the descriptor of an enumeration on the heap, with a struct
    /// descriptor for each variant, and returns the value that names it.
    fn store_enum(&self, name: &Token, variants: &Vec<EnumVariant>, gc: &mut GC) -> (value: Value)
        requires
            self.wf(old(gc)),
        ensures
            self.wf(final(gc)),
            old(gc).preserved_in(final(gc)),
            forall|constants: Seq<Value>, ix: u16|
                ix < constants.len() && constants[ix as int] == value ==> #[trigger] realizes(
                    Opcode::LoadConst(ix),
                    Emitted::Enum(name.name(), variant_shapes(variants@)),
                    constants,
                    final(gc),
                    self.compiled@,
                ),
    {
        let ghost before = *gc;
        let placeholder = EnumDescriptor {
            name: name.name_string(),
            variants: Vec::new(),
            methods: Vec::new(),
        };
        let value = gc.store(OwnedObjectItem::EnumDescriptor(placeholder));
        let handle = match value {
            Value::EnumDescriptor(handle) => handle,
            _ => 0,
        };
        let mut entries: Vec<(String, Value)> = Vec::new();
        let mut i: usize = 0;
        proof {
            assert(stored_shapes(gc, entries@) =~= variant_shapes(variants@).subrange(0, 0));
        }
        while i < variants.len()
            invariant
                i <= variants.len(),
                gc.wf(),
                before.preserved_in(gc),
                value == Value::EnumDescriptor(handle),
                !before.contains(handle),
                gc.contains(handle),
                gc.object(handle) is EnumDescriptor,
                entries@.len() == i,
                forall|k: int| 0 <= k < i ==> is_variant_of(gc, #[trigger] entries@[k], handle),
                stored_shapes(gc, entries@) == variant_shapes(variants@).subrange(0, i as int),
            decreases variants.len() - i,
        {
            let ghost heap = *gc;
            let ghost earlier = entries@;
            let descriptor = StructDescriptor {
                name: variants[i].name.name_string(),
                fields: token_names(&variants[i].fields),
                methods: Vec::new(),
                enum_descriptor: Some(handle),
            };
            let variant = gc.store(OwnedObjectItem::StructDescriptor(descriptor));
            entries.push((variants[i].name.name_string(), variant));
            proof {
                assert forall|k: int| 0 <= k < i + 1 implies is_variant_of(
                    gc,
                    #[trigger] entries@[k],
                    handle,
                ) by {
                    if k < i {
                        assert(is_variant_of(&heap, earlier[k], handle));
                        assert(entries@[k] == earlier[k]);
                        let v = earlier[k].1->StructDescriptor_0;
                        assert(heap.contains(v));
                    }
                }
                assert(stored_shapes(gc, entries@) =~= variant_shapes(variants@).subrange(
                    0,
                    i + 1,
                )) by {
                    assert forall|k: int| 0 <= k < i + 1 implies stored_shapes(gc, entries@)[k]
                        == variant_shapes(variants@)[k] by {
                        if k < i {
                            assert(is_variant_of(&heap, earlier[k], handle));
                            let v = earlier[k].1->StructDescriptor_0;
                            assert(heap.contains(v));
                            assert(stored_shapes(&heap, earlier)[k] == variant_shapes(
                                variants@,
                            ).subrange(0, i as int)[k]);
                        } else {
                            assert(texts(descriptor.fields@) =~= names(variants@[k].fields@));
                        }
                    }
                }
            }
            i += 1;
        }
        let ghost heap = *gc;
        let ghost stored = entries@;
        let complete = EnumDescriptor {
            name: name.name_string(),
            variants: entries,
            methods: Vec::new(),
        };
        gc.replace(handle, OwnedObjectItem::EnumDescriptor(complete));
        proof {
            assert(before.preserved_in(gc)) by {
                assert forall|h: usize| #[trigger] before.contains(h) implies gc.contains(h)
                    && gc.object(h) == before.object(h) by {
                    assert(heap.contains(h) && heap.object(h) == before.object(h));
                    assert(h != handle);
                }
            }
            self.lemma_sound_in(&before, gc);
            assert(gc.wf());
            assert forall|k: int| 0 <= k < stored.len() implies is_variant_of(
                gc,
                #[trigger] stored[k],
                handle,
            ) by {
                assert(is_variant_of(&heap, stored[k], handle));
                let v = stored[k].1->StructDescriptor_0;
                assert(heap.contains(v));
                assert(v != handle);
            }
            assert(stored_shapes(gc, stored) =~= variant_shapes(variants@)) by {
                assert(variant_shapes(variants@).subrange(0, variants@.len() as int)
                    =~= variant_shapes(variants@));
                assert forall|k: int| 0 <= k < stored.len() implies stored_shapes(gc, stored)[k]
                    == stored_shapes(&heap, stored)[k] by {
                    assert(is_variant_of(&heap, stored[k], handle));
                    let v = stored[k].1->StructDescriptor_0;
                    assert(heap.contains(v));
                    assert(v != handle);
                }
            }
        }
        value
    }

    /// Compiles a program to the function that runs it. The function and
    /// every function inside it is stored on the heap as a body whose
    /// instructions are those that the program's text and the table of
    /// the analysis determine, with each constant at some index of the
    /// body's constants. The compiler fails where the table lacks an
    /// entry, a token is malformed, or a limit of the instruction set is
    /// passed, and in no other case; the constants of a function run out
    /// only where the program holds more literals, names and declarations
    /// than an instruction can name.
    pub fn compile(program: &Expr, annotations: &'a Annotations, gc: &mut GC) -> (result: Result<
        Value,
        CompileError,
    >)
        requires
            old(gc).wf(),
        ensures
            final(gc).wf(),
            old(gc).preserved_in(final(gc)),
            fails_as(result, function_code(program_function(*program), annotations.model())),
            result is Err && result->Err_0.kind is TooManyConstants ==> expr_constants(*program)
                > u16::MAX,
            result matches Ok(entry) ==> exists|compiled: Map<usize, FunctionAst>| #[trigger]
                linked(final(gc), annotations.model(), compiled) && (entry matches Value::Function(
                    h,
                ) && compiled.contains_key(h) && compiled[h] == program_function(*program)),
    {
        let mut compiler = Compiler {
            annotations,
            functions: Vec::new(),
            compiled: Ghost(Map::empty()),
        };
        let key = match program {
            Expr::Block(begin, _, _) => begin.position,
            _ => Position { line: 0, column: 0 },
        };
        let no_params: Vec<Token> = Vec::new();
        let no_name = String::new();
        proof {
            reveal(Compiler::sound);
            assert(all_params(no_params@, clone_option::<Token>(None)) =~= Seq::<Token>::empty());
            assert(function_ast(key, no_name@, no_params@, clone_option::<Token>(None), *program)
                == program_function(*program));
        }
        match compiler.compile_function(key, no_name, &no_params, None, program, gc) {
            Ok((function, _)) => {
                proof {
                    reveal(Compiler::sound);
                    assert(linked(gc, annotations.model(), compiler.compiled@));
                }
                Ok(function)
            },
            Err(error) => Err(error),
        }
    }
}

proof fn lemma_args_code_fails(
    args: Seq<Expr>,
    k: nat,
    n: nat,
    table: Table,
    closed: Seq<Seq<char>>,
    depth: u16,
)
    requires
        args_code(args, k, table, closed, depth) is Err,
        k <= n <= args.len(),
    ensures
        args_code(args, n, table, closed, depth) == args_code(args, k, table, closed, depth),
    decreases n - k,
{
    if k < n {
        lemma_args_code_fails(args, k, (n - 1) as nat, table, closed, depth);
    }
}

proof fn lemma_optional_args_code_fails(
    args: Seq<Option<Expr>>,
    k: nat,
    n: nat,
    table: Table,
    closed: Seq<Seq<char>>,
    depth: u16,
    at: Position,
)
    requires
        optional_args_code(args, k, table, closed, depth, at) is Err,
        k <= n <= args.len(),
    ensures
        optional_args_code(args, n, table, closed, depth, at) == optional_args_code(
            args,
            k,
            table,
            closed,
            depth,
            at,
        ),
    decreases n - k,
{
    if k < n {
        lemma_optional_args_code_fails(args, k, (n - 1) as nat, table, closed, depth, at);
    }
}

proof fn lemma_stmts_code_fails(
    stmts: Seq<Stmt>,
    k: nat,
    n: nat,
    table: Table,
    closed: Seq<Seq<char>>,
    depth: u16,
)
    requires
        stmts_code(stmts, k, table, closed, depth) is Err,
        k <= n <= stmts.len(),
    ensures
        stmts_code(stmts, n, table, closed, depth) == stmts_code(stmts, k, table, closed, depth),
    decreases n - k,
{
    if k < n {
        lemma_stmts_code_fails(stmts, k, (n - 1) as nat, table, closed, depth);
    }
}

proof fn lemma_methods_code_fails(methods: Seq<Stmt>, k: nat, n: nat, table: Table, depth: u16)
    requires
        methods_code(methods, k, table, depth) is Err,
        k <= n <= methods.len(),
    ensures
        methods_code(methods, n, table, depth) == methods_code(methods, k, table, depth),
    decreases n - k,
{
    if k < n {
        lemma_methods_code_fails(methods, k, (n - 1) as nat, table, depth);
    }
}

/// Replacing what stands between two runs of instructions.
pub proof fn lemma_patch_between(
    head: Seq<Emission>,
    placeholder: Emission,
    tail: Seq<Emission>,
    patched: Emission,
)
    ensures
        (head.push(placeholder) + tail).update(head.len() as int, patched) == head.push(patched)
            + tail,
{
    assert((head.push(placeholder) + tail).update(head.len() as int, patched) =~= head.push(
        patched,
    ) + tail);
}

/// The end of a scope adds to the instructions of the scope what it adds
/// to no instructions.
pub proof fn lemma_scope_end(
    code: Seq<Emission>,
    now: u16,
    kept: bool,
    count: Option<u16>,
    depth: u16,
    at: Position,
)
    ensures
        scope_end(code, now, kept, count, depth, at) is Ok == scope_end(
            Seq::empty(),
            now,
            kept,
            count,
            depth,
            at,
        ) is Ok,
        scope_end(code, now, kept, count, depth, at) matches Ok(all) ==> all == code + scope_end(
            Seq::empty(),
            now,
            kept,
            count,
            depth,
            at,
        )->Ok_0,
        scope_end(code, now, kept, count, depth, at) matches Err(error) ==> scope_end(
            Seq::<Emission>::empty(),
            now,
            kept,
            count,
            depth,
            at,
        ) == Err::<Seq<Emission>, CompileError>(error),
{
    if scope_end(code, now, kept, count, depth, at) is Ok {
        let all = scope_end(code, now, kept, count, depth, at)->Ok_0;
        let tail = scope_end(Seq::empty(), now, kept, count, depth, at)->Ok_0;
        assert(all =~= code + tail);
    }
}

/// The names of tokens as text.
pub fn token_names(tokens: &Vec<Token>) -> (result: Vec<String>)
    ensures
        texts(result@) == names(tokens@),
{
    let mut result: Vec<String> = Vec::new();
    let mut i: usize = 0;
    while i < tokens.len()
        invariant
            i <= tokens.len(),
            result@.len() == i,
            forall|k: int| 0 <= k < i ==> (#[trigger] result@[k])@ == tokens@[k].name(),
        decreases tokens.len() - i,
    {
        result.push(tokens[i].name_string());
        i += 1;
    }
    assert(texts(result@) =~= names(tokens@));
    result
}

/// Where an expression starts, as far as a token of it says.
pub fn first_position(e: &Expr) -> (at: Position)
    ensures
        at == spec_first_position(*e),
    decreases e,
{
    match e {
        Expr::Number(token) => token.position,
        Expr::ConstString(token) => token.position,
        Expr::Name(token) => token.position,
        Expr::Binary(_, lhs, _) => first_position(lhs),
        Expr::Unary(op, _) => op.position,
        Expr::If(condition, _, _) => first_position(condition),
        Expr::Block(begin, _, _) => begin.position,
        Expr::SingleStatement(stmt) => stmt_position(stmt),
        Expr::Call(callee, _) => first_position(callee),
        Expr::PartialCall(callee, _) => first_position(callee),
        Expr::PropertyAccess(target, _) => first_position(target),
        Expr::PropertyTest(target, _) => first_position(target),
        Expr::AnonFunction(_, _, arrow, _) => arrow.position,
    }
}

/// Where a statement starts, as far as a token of it says.
pub fn stmt_position(s: &Stmt) -> (at: Position)
    ensures
        at == spec_stmt_position(*s),
    decreases s,
{
    match s {
        Stmt::Print(token, _) => token.position,
        Stmt::VarDeclaration(name, _) => name.position,
        Stmt::Assignment(name, _) => name.position,
        Stmt::PropertyAssignment(target, _) => first_position(target),
        Stmt::Expression(e) => first_position(e),
        Stmt::Assert(token, _) => token.position,
        Stmt::Pass(token) => token.position,
        Stmt::FunctionDeclaration { name, args, vararg, body } => name.position,
        Stmt::StructDeclaration { name, fields } => name.position,
        Stmt::EnumDeclaration { name, variants } => name.position,
        Stmt::ImplBlock { name, implementations } => name.position,
    }
}

} // verus!

