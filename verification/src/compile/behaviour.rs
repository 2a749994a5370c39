use vstd::prelude::*;
use crate::compile::checks::optimization::{
    evaluate, folded_value, lemma_folding_preserves_evaluation, names_of, optimizes_to,
    spec_operator_opcode,
};
use crate::compile::checks::resolution::walk_program;
use crate::compile::emission::{
    binary_code, body_realizes, entry_at, expr_code, function_code, is_compilation, linked, plain,
    program_function, prologue_code, realizes, CompileError, Emission, Emitted, FunctionAst,
    Table,
};
use crate::data::gc::GC;
use crate::data::objects::Value;
use crate::execution::arity::Arity;
use crate::execution::chunk::{Chunk, Opcode};
use crate::execution::run::kind_of;
use crate::execution::vm::{binary_result, RuntimeError, RuntimeErrorKind, CODE_LIMIT, VM};
use crate::{builtin_names, is_compiled_program};
use crate::parsing::ast::Expr;

verus! {

/// Whether the current frame of the machine is at the instruction at
/// index `at` of `chunk`, with its callee slot on the stack.
pub open spec fn placed_at(vm: VM, chunk: Chunk, at: int) -> bool {
    &&& vm.current_chunk() == Some(chunk)
    &&& vm.frames@.last().ip == at
    &&& vm.frames@.last().base < vm.stack@.len()
}

/// Whether the machine is about to run the instruction at index `at` of
/// `chunk`: its current frame is there, and no collection is due.
pub open spec fn stands_in(vm: VM, chunk: Chunk, at: int) -> bool {
    placed_at(vm, chunk, at) && !vm.collection_due()
}

/// Whether `vm` is `origin` with `values` on top of its stack and with its
/// current frame moved on by `distance` instructions.
pub open spec fn reached(vm: VM, origin: VM, values: Seq<Value>, distance: int) -> bool {
    &&& vm.gc == origin.gc
    &&& vm.builtins == origin.builtins
    &&& vm.globals == origin.globals
    &&& vm.output == origin.output
    &&& vm.stack_limit == origin.stack_limit
    &&& vm.stack@ == origin.stack@ + values
    &&& vm.frames@ == origin.frames_advanced(distance)
}

/// Whether the next instruction of `vm` cannot fail.
pub open spec fn goes_on(vm: VM) -> bool {
    forall|after: VM, result: Result<(), RuntimeError>| #[trigger]
        after.stepped_from(&vm, result) ==> result is Ok
}

/// Whether the next move of `vm` is an instruction that fails, and with
/// `kind`.
pub open spec fn fails_with(vm: VM, kind: RuntimeErrorKind) -> bool {
    &&& vm.frames@.len() > 0
    &&& !vm.collection_due()
    &&& forall|after: VM, result: Result<(), RuntimeError>| #[trigger]
        after.stepped_from(&vm, result) ==> result is Err && result->Err_0.kind == kind
}

/// Whether the machines of `trace` from index `from` up to index `to`
/// are under way: each has a frame, and its next instruction cannot fail.
pub open spec fn safe(trace: Seq<VM>, from: int, to: int) -> bool {
    forall|j: int|
        from <= j < to && j < trace.len() ==> goes_on(#[trigger] trace[j]) && trace[j].frames@.len()
            > 0
}

/// Whether `after` is what one move of a run makes of `before`.
#[verifier::opaque]
pub open spec fn follows(after: VM, before: VM) -> bool {
    after.moved_from(&before)
}

/// Whether each machine of `trace` is what one move of a run makes of
/// the machine before it.
pub open spec fn steps(trace: Seq<VM>) -> bool {
    forall|i: int| 0 <= i < trace.len() - 1 ==> follows(#[trigger] trace[i + 1], trace[i])
}

/// Whether every machine of `trace` but the last has a frame.
pub open spec fn under_way(trace: Seq<VM>) -> bool {
    forall|i: int| 0 <= i < trace.len() - 1 ==> (#[trigger] trace[i]).frames@.len() > 0
}

/// Whether the instructions of `chunk` from index `at` on are `code`.
pub open spec fn placed(
    chunk: Chunk,
    at: int,
    code: Seq<Emission>,
    heap: &GC,
    compiled: Map<usize, FunctionAst>,
) -> bool {
    &&& 0 <= at
    &&& at + code.len() <= chunk.code@.len()
    &&& forall|i: int|
        0 <= i < code.len() ==> realizes(
            chunk.code@[at + i],
            (#[trigger] code[i]).what,
            chunk.constants@,
            heap,
            compiled,
        )
}

/// A part of the instructions that are placed in a chunk is placed there.
proof fn lemma_placed_part(
    chunk: Chunk,
    at: int,
    code: Seq<Emission>,
    heap: &GC,
    compiled: Map<usize, FunctionAst>,
    from: int,
    part: Seq<Emission>,
)
    requires
        placed(chunk, at, code, heap, compiled),
        0 <= from,
        from + part.len() <= code.len(),
        code.subrange(from, from + part.len()) == part,
    ensures
        placed(chunk, at + from, part, heap, compiled),
{
    assert forall|i: int| 0 <= i < part.len() implies realizes(
        chunk.code@[at + from + i],
        (#[trigger] part[i]).what,
        chunk.constants@,
        heap,
        compiled,
    ) by {
        assert(code[from + i] == part[i]);
    }
}

/// An instruction that names no constant stands in the chunk as it is.
proof fn lemma_placed_plain(
    chunk: Chunk,
    at: int,
    code: Seq<Emission>,
    heap: &GC,
    compiled: Map<usize, FunctionAst>,
    i: int,
    opcode: Opcode,
)
    requires
        placed(chunk, at, code, heap, compiled),
        0 <= i < code.len(),
        code[i].what == Emitted::Plain(opcode),
    ensures
        chunk.code@[at + i] == opcode,
{
}

/// The instructions of a compiled body are placed in it: any stretch of
/// what was emitted for the body stands in its chunk at the same index.
pub proof fn lemma_body_is_placed(
    chunk: Chunk,
    body: Seq<Emission>,
    heap: &GC,
    compiled: Map<usize, FunctionAst>,
    at: int,
    code: Seq<Emission>,
)
    requires
        body_realizes(chunk, body, heap, compiled),
        0 <= at,
        at + code.len() <= body.len(),
        body.subrange(at, at + code.len()) == code,
    ensures
        placed(chunk, at, code, heap, compiled),
{
    assert forall|i: int| 0 <= i < code.len() implies realizes(
        chunk.code@[at + i],
        (#[trigger] code[i]).what,
        chunk.constants@,
        heap,
        compiled,
    ) by {
        assert(body[at + i] == code[i]);
    }
}

/// Whether `opcode` is the instruction of an operator of arithmetic or
/// comparison.
pub open spec fn is_operator(opcode: Opcode) -> bool {
    opcode is Add || opcode is Sub || opcode is Mul || opcode is Div || opcode is Mod
        || opcode is Power || opcode is Eq || opcode is Ne || opcode is Lt || opcode is Le
        || opcode is Gt || opcode is Ge
}

/// The last value but `depth` of `values`.
pub open spec fn from_top(values: Seq<Value>, depth: int) -> Value {
    values[values.len() - 1 - depth]
}

/// What an instruction of an expression over integer literals makes of
/// the values that the machine holds above those it began with: the
/// values afterwards, and by how many instructions the current frame
/// moves on.
pub open spec fn made_of(opcode: Opcode, constants: Seq<Value>, values: Seq<Value>) -> (
    Seq<Value>,
    int,
) {
    match opcode {
        Opcode::LoadImmediateInt(n) => (values.push(Value::Int(n as i64)), 1),
        Opcode::LoadConst(ix) => (values.push(constants[ix as int]), 1),
        Opcode::Not => (
            values.drop_last().push(Value::spec_from_bool(!from_top(values, 0).spec_truthy())),
            1,
        ),
        Opcode::JumpIfFalse(distance) => (
            values.drop_last(),
            if from_top(values, 0).spec_truthy() {
                1
            } else {
                1 + distance
            },
        ),
        Opcode::Jump(distance) => (values, 1 + distance),
        _ => (
            values.drop_last().drop_last().push(
                binary_result(opcode, from_top(values, 1), from_top(values, 0))->Ok_0,
            ),
            1,
        ),
    }
}

/// Whether the machine has what the instruction at index `at` of `chunk`
/// needs, with `values` above the values that it began with: room for
/// the value that is loaded, the operands that are taken, a jump that
/// stays within the chunk, and operands that the operator takes.
pub open spec fn ready(vm: VM, chunk: Chunk, at: int, values: Seq<Value>) -> bool {
    0 <= at < chunk.code@.len() && match chunk.code@[at] {
        Opcode::LoadImmediateInt(_) => vm.stack@.len() < vm.stack_limit,
        Opcode::LoadConst(ix) => ix < chunk.constants@.len() && vm.stack@.len() < vm.stack_limit,
        Opcode::Not => values.len() >= 1,
        Opcode::JumpIfFalse(distance) => values.len() >= 1 && at + 1 + distance
            <= chunk.code@.len(),
        Opcode::Jump(distance) => at + 1 + distance <= chunk.code@.len(),
        opcode => is_operator(opcode) && values.len() >= 2 && binary_result(
            opcode,
            from_top(values, 1),
            from_top(values, 0),
        ) is Ok,
    }
}

/// A machine that has reached a place from one that stood in a chunk
/// stands in that chunk too, further on.
proof fn lemma_reached_stands(
    vm: VM,
    origin: VM,
    chunk: Chunk,
    at: int,
    values: Seq<Value>,
    distance: int,
)
    requires
        stands_in(origin, chunk, at),
        reached(vm, origin, values, distance),
        0 <= distance,
        at + distance <= chunk.code@.len(),
    ensures
        stands_in(vm, chunk, at + distance),
        vm.frames@.len() > 0,
        vm.frames@.last().base == origin.frames@.last().base,
{
}

/// One move of a machine that has what its next instruction needs: the
/// instruction cannot fail, and the machine after it has reached what the
/// instruction makes of the values.
proof fn lemma_advance(
    trace: Seq<VM>,
    k: int,
    j: int,
    chunk: Chunk,
    at: int,
    values: Seq<Value>,
    distance: int,
)
    requires
        steps(trace),
        0 <= k <= j < trace.len(),
        stands_in(trace[k], chunk, at),
        reached(trace[j], trace[k], values, distance),
        0 <= distance,
        ready(trace[j], chunk, at + distance, values),
    ensures
        safe(trace, j, j + 1),
        j + 1 < trace.len() ==> reached(
            trace[j + 1],
            trace[k],
            made_of(chunk.code@[at + distance], chunk.constants@, values).0,
            distance + made_of(chunk.code@[at + distance], chunk.constants@, values).1,
        ),
{
    let vm = trace[j];
    let origin = trace[k];
    let opcode = chunk.code@[at + distance];
    let (next, moved) = made_of(opcode, chunk.constants@, values);
    lemma_reached_stands(vm, origin, chunk, at, values, distance);
    assert(vm.current_opcode() == Some(opcode));
    assert forall|after: VM, result: Result<(), RuntimeError>| #[trigger]
        after.stepped_from(&vm, result) implies result is Ok && reached(
        after,
        origin,
        next,
        distance + moved,
    ) by {
        let mid = choose|mid: VM| #[trigger]
            mid.advanced_from(&vm, 1) && after.executed_from(&mid, opcode, kind_of(result));
        assert(mid.current_chunk() == Some(chunk));
        assert(mid.stack@ == vm.stack@);
        match opcode {
            Opcode::LoadImmediateInt(_) => {
                assert(mid.has_operands(0));
                assert(mid.stack@.subrange(0, mid.stack@.len() - 0) =~= mid.stack@);
            },
            Opcode::LoadConst(ix) => {
                assert(mid.has_operands(0));
                assert(mid.stack@.subrange(0, mid.stack@.len() - 0) =~= mid.stack@);
            },
            Opcode::Not => {
                assert(mid.has_operands(1));
                assert(mid.operand(0) == from_top(values, 0));
                assert(mid.stack@.subrange(0, mid.stack@.len() - 1) =~= origin.stack@
                    + values.drop_last());
            },
            Opcode::JumpIfFalse(d) => {
                assert(mid.has_operands(1));
                assert(mid.operand(0) == from_top(values, 0));
                assert(after.jump_instruction_effect(&mid, d, true, kind_of(result)));
                assert(mid.stack@.subrange(0, mid.stack@.len() - 1) =~= origin.stack@
                    + values.drop_last());
            },
            Opcode::Jump(d) => {
                assert(mid.has_operands(0));
                assert(after.jump_instruction_effect(&mid, d, false, kind_of(result)));
                assert(mid.stack@.subrange(0, mid.stack@.len() - 0) =~= mid.stack@);
            },
            _ => {
                assert(mid.has_operands(2));
                assert(mid.operand(0) == from_top(values, 0));
                assert(mid.operand(1) == from_top(values, 1));
                let value = binary_result(opcode, from_top(values, 1), from_top(values, 0))->Ok_0;
                let outcome: Result<Option<Value>, RuntimeErrorKind> = Ok(Some(value));
                assert(mid.evaluation(opcode) == Some((2int, outcome)));
                assert(after.evaluated_from(&mid, 2, outcome, kind_of(result)));
                assert(mid.stack@.subrange(0, mid.stack@.len() - 2) =~= origin.stack@
                    + values.drop_last().drop_last());
            },
        }
        assert(after.stack@ =~= origin.stack@ + next);
        assert(after.frames@ =~= origin.frames_advanced(distance + moved));
    }
    if j + 1 < trace.len() {
        assert(follows(trace[j + 1], trace[j]));
        reveal(follows);
    }
}

/// An operator's instruction fails as the operator does on the two
/// values on top of the stack.
proof fn lemma_operator_fails(
    vm: VM,
    origin: VM,
    chunk: Chunk,
    at: int,
    values: Seq<Value>,
    distance: int,
    kind: RuntimeErrorKind,
)
    requires
        stands_in(origin, chunk, at),
        reached(vm, origin, values, distance),
        0 <= distance,
        at + distance < chunk.code@.len(),
        is_operator(chunk.code@[at + distance]),
        values.len() >= 2,
        binary_result(chunk.code@[at + distance], from_top(values, 1), from_top(values, 0))
            == Err::<Value, RuntimeErrorKind>(kind),
    ensures
        fails_with(vm, kind),
{
    let opcode = chunk.code@[at + distance];
    lemma_reached_stands(vm, origin, chunk, at, values, distance);
    assert(vm.current_opcode() == Some(opcode));
    assert forall|after: VM, result: Result<(), RuntimeError>| #[trigger]
        after.stepped_from(&vm, result) implies result is Err && result->Err_0.kind == kind by {
        let mid = choose|mid: VM| #[trigger]
            mid.advanced_from(&vm, 1) && after.executed_from(&mid, opcode, kind_of(result));
        assert(mid.has_operands(2));
        assert(mid.operand(0) == from_top(values, 0));
        assert(mid.operand(1) == from_top(values, 1));
        let outcome: Result<Option<Value>, RuntimeErrorKind> = Err(kind);
        assert(mid.evaluation(opcode) == Some((2int, outcome)));
        assert(after.evaluated_from(&mid, 2, outcome, kind_of(result)));
    }
}

/// How many instructions of an expression over integer literals run
/// until its value lies on the stack or, where the evaluation fails, until
/// the instruction that fails is the next.
pub open spec fn run_length(e: Expr) -> nat
    decreases e,
{
    match e {
        Expr::Binary(op, lhs, rhs) => match evaluate(*lhs) {
            Some(Ok(a)) => match spec_operator_opcode(op.kind) {
                Some(opcode) => match evaluate(*rhs) {
                    Some(Ok(b)) => run_length(*lhs) + run_length(*rhs) + if binary_result(
                        opcode,
                        a,
                        b,
                    ) is Ok {
                        1nat
                    } else {
                        0nat
                    },
                    _ => run_length(*lhs) + run_length(*rhs),
                },
                None => if op.kind is And {
                    if a.spec_truthy() {
                        run_length(*lhs) + 1 + right_length(*rhs, false, run_length(*rhs))
                    } else {
                        run_length(*lhs) + 2
                    }
                } else {
                    if a.spec_truthy() {
                        run_length(*lhs) + 3
                    } else {
                        run_length(*lhs) + 2 + right_length(*rhs, true, run_length(*rhs))
                    }
                },
            },
            _ => run_length(*lhs),
        },
        Expr::Unary(op, operand) => match evaluate(*operand) {
            Some(Ok(a)) => run_length(*operand) + 1,
            _ => run_length(*operand),
        },
        _ => 1,
    }
}

/// How many instructions the right operand of `and` and `or` and the
/// verdict on it take, where the operand itself takes `length`: the
/// verdict takes two or three, after one more that negates the value for
/// `or`, and none where the operand fails.
pub open spec fn right_length(rhs: Expr, negated: bool, length: nat) -> nat {
    match evaluate(rhs) {
        Some(Ok(b)) => length + if negated {
            if b.spec_truthy() {
                3nat
            } else {
                4nat
            }
        } else {
            if b.spec_truthy() {
                3nat
            } else {
                2nat
            }
        },
        _ => length,
    }
}

/// How many values the evaluation of an expression over integer literals
/// has on the stack at most.
pub open spec fn stack_need(e: Expr) -> nat
    decreases e,
{
    match e {
        Expr::Binary(op, lhs, rhs) => if spec_operator_opcode(op.kind) is Some {
            if stack_need(*lhs) >= 1 + stack_need(*rhs) {
                stack_need(*lhs)
            } else {
                1 + stack_need(*rhs)
            }
        } else {
            if stack_need(*lhs) >= stack_need(*rhs) {
                stack_need(*lhs)
            } else {
                stack_need(*rhs)
            }
        },
        Expr::Unary(op, operand) => stack_need(*operand),
        _ => 1,
    }
}

/// An evaluation needs room for one value at least.
proof fn lemma_stack_need_positive(e: Expr)
    ensures
        stack_need(e) >= 1,
    decreases e,
{
    match e {
        Expr::Binary(op, lhs, rhs) => {
            lemma_stack_need_positive(*lhs);
            lemma_stack_need_positive(*rhs);
        },
        Expr::Unary(op, operand) => {
            lemma_stack_need_positive(*operand);
        },
        _ => {},
    }
}

/// Whether the machine `trace[k]` comes to `outcome` after `length`
/// moves: the machines before that are under way, and the machine after
/// so many moves, if the trace is as long as that, has the value on top
/// of its stack, with the current frame `distance` instructions further
/// on, or is at an instruction that fails with the kind that `outcome`
/// names.
pub open spec fn runs_to(
    trace: Seq<VM>,
    k: int,
    length: nat,
    outcome: Result<Value, RuntimeErrorKind>,
    distance: int,
) -> bool {
    &&& safe(trace, k, k + length)
    &&& k + length < trace.len() ==> match outcome {
        Ok(value) => reached(trace[k + length], trace[k], seq![value], distance),
        Err(kind) => fails_with(trace[k + length], kind),
    }
}

/// Whether the machine `trace[j]`, which has reached `values` and has
/// moved on by `done` instructions since `trace[k]`, comes to `outcome`
/// after `length` moves: to one more value and `distance` instructions
/// further on, or to an instruction that fails.
pub open spec fn runs_on(
    trace: Seq<VM>,
    k: int,
    j: int,
    values: Seq<Value>,
    done: int,
    length: nat,
    outcome: Result<Value, RuntimeErrorKind>,
    distance: int,
) -> bool {
    &&& safe(trace, j, j + length)
    &&& j + length < trace.len() ==> match outcome {
        Ok(value) => reached(trace[j + length], trace[k], values.push(value), done + distance),
        Err(kind) => fails_with(trace[j + length], kind),
    }
}

/// The four instructions that turn the value `tested` on top of the
/// stack into one of two integers: `x` where it counts as true, `y` where
/// it counts as false.
proof fn lemma_choice_runs(
    trace: Seq<VM>,
    k: int,
    j: int,
    chunk: Chunk,
    at: int,
    values: Seq<Value>,
    tested: Value,
    done: int,
    x: i16,
    y: i16,
)
    requires
        steps(trace),
        0 <= k <= j < trace.len(),
        stands_in(trace[k], chunk, at),
        reached(trace[j], trace[k], values.push(tested), done),
        0 <= done,
        at + done + 4 <= chunk.code@.len(),
        chunk.code@[at + done] == Opcode::JumpIfFalse(2),
        chunk.code@[at + done + 1] == Opcode::LoadImmediateInt(x),
        chunk.code@[at + done + 2] == Opcode::Jump(1),
        chunk.code@[at + done + 3] == Opcode::LoadImmediateInt(y),
        trace[j].stack@.len() <= trace[j].stack_limit,
    ensures
        runs_on(
            trace,
            k,
            j,
            values,
            done,
            if tested.spec_truthy() {
                3nat
            } else {
                2nat
            },
            Ok(
                Value::Int(
                    if tested.spec_truthy() {
                        x as i64
                    } else {
                        y as i64
                    },
                ),
            ),
            4,
        ),
{
    lemma_advance(trace, k, j, chunk, at, values.push(tested), done);
    assert(values.push(tested).drop_last() =~= values);
    if j + 1 < trace.len() {
        if tested.spec_truthy() {
            lemma_advance(trace, k, j + 1, chunk, at, values, done + 1);
            if j + 2 < trace.len() {
                lemma_advance(
                    trace,
                    k,
                    j + 2,
                    chunk,
                    at,
                    values.push(Value::Int(x as i64)),
                    done + 2,
                );
            }
        } else {
            lemma_advance(trace, k, j + 1, chunk, at, values, done + 3);
        }
    }
}

/// Where the instructions of `and` and `or` stand: the left operand, the
/// test, the right operand and the verdict, one after the other.
pub open spec fn logical_layout(
    chunk: Chunk,
    at: int,
    left: Seq<Emission>,
    right: Seq<Emission>,
    negated: bool,
    heap: &GC,
    compiled: Map<usize, FunctionAst>,
) -> bool {
    let n = if negated { 1int } else { 0int };
    let test = at + left.len() + n;
    let verdict = test + 1 + right.len() + n;
    &&& placed(chunk, at, left, heap, compiled)
    &&& placed(chunk, test + 1, right, heap, compiled)
    &&& verdict + 4 <= chunk.code@.len()
    &&& right.len() + n + 3 <= u16::MAX
    &&& negated ==> chunk.code@[test - 1] == Opcode::Not && chunk.code@[verdict - 1] == Opcode::Not
    &&& chunk.code@[test] == Opcode::JumpIfFalse((right.len() + n + 3) as u16)
    &&& chunk.code@[verdict] == Opcode::JumpIfFalse(2)
    &&& chunk.code@[verdict + 1] == Opcode::LoadImmediateInt(if negated { 0i16 } else { 1i16 })
    &&& chunk.code@[verdict + 2] == Opcode::Jump(1)
    &&& chunk.code@[verdict + 3] == Opcode::LoadImmediateInt(if negated { 1i16 } else { 0i16 })
}

/// The instructions of `and` and `or` stand in the chunk in their layout.
proof fn lemma_logical_layout(
    e: Expr,
    table: Table,
    closed: Seq<Seq<char>>,
    depth: u16,
    heap: &GC,
    compiled: Map<usize, FunctionAst>,
    chunk: Chunk,
    at: int,
)
    requires
        e matches Expr::Binary(op, lhs, rhs) && spec_operator_opcode(op.kind) is None,
        evaluate(e) is Some,
        expr_code(e, table, closed, depth) is Ok,
        placed(chunk, at, expr_code(e, table, closed, depth)->Ok_0, heap, compiled),
    ensures
        e matches Expr::Binary(op, lhs, rhs) && (op.kind is And || op.kind is Or) && expr_code(
            *lhs,
            table,
            closed,
            depth,
        ) is Ok && expr_code(*rhs, table, closed, depth) is Ok && logical_layout(
            chunk,
            at,
            expr_code(*lhs, table, closed, depth)->Ok_0,
            expr_code(*rhs, table, closed, depth)->Ok_0,
            op.kind is Or,
            heap,
            compiled,
        ) && expr_code(e, table, closed, depth)->Ok_0.len() == expr_code(
            *lhs,
            table,
            closed,
            depth,
        )->Ok_0.len() + expr_code(*rhs, table, closed, depth)->Ok_0.len() + (if op.kind is Or {
            7int
        } else {
            5int
        }),
{
    match e {
        Expr::Binary(op, lhs, rhs) => {
            let negated = op.kind is Or;
            let n: int = if negated {
                1
            } else {
                0
            };
            let x: i16 = if negated {
                0
            } else {
                1
            };
            let y: i16 = if negated {
                1
            } else {
                0
            };
            assert(expr_code(e, table, closed, depth) == binary_code(e, table, closed, depth));
            assert(op.kind is And || op.kind is Or);
            let left = expr_code(*lhs, table, closed, depth)->Ok_0;
            let right = expr_code(*rhs, table, closed, depth)->Ok_0;
            let l = left.len() as int;
            let r = right.len() as int;
            let negate: Seq<Emission> = if negated {
                seq![plain(Opcode::Not, op.position)]
            } else {
                Seq::empty()
            };
            let distance = (r + n + 3) as u16;
            let code = left + negate + seq![plain(Opcode::JumpIfFalse(distance), op.position)]
                + right + negate + seq![
                plain(Opcode::JumpIfFalse(2), op.position),
                plain(Opcode::LoadImmediateInt(x), op.position),
                plain(Opcode::Jump(1), op.position),
                plain(Opcode::LoadImmediateInt(y), op.position),
            ];
            assert(expr_code(e, table, closed, depth) == Ok::<Seq<Emission>, CompileError>(code));
            let t = l + n;
            let s = t + 1 + r;
            let v = s + n;
            assert(code.len() == v + 4);
            assert(code.subrange(0, l) =~= left);
            assert(code.subrange(t + 1, t + 1 + r) =~= right);
            assert(code[t] == plain(Opcode::JumpIfFalse(distance), op.position));
            assert(code[v] == plain(Opcode::JumpIfFalse(2), op.position));
            assert(code[v + 1] == plain(Opcode::LoadImmediateInt(x), op.position));
            assert(code[v + 2] == plain(Opcode::Jump(1), op.position));
            assert(code[v + 3] == plain(Opcode::LoadImmediateInt(y), op.position));
            lemma_placed_part(chunk, at, code, heap, compiled, 0, left);
            lemma_placed_part(chunk, at, code, heap, compiled, t + 1, right);
            lemma_placed_plain(chunk, at, code, heap, compiled, t, Opcode::JumpIfFalse(distance));
            lemma_placed_plain(chunk, at, code, heap, compiled, v, Opcode::JumpIfFalse(2));
            lemma_placed_plain(chunk, at, code, heap, compiled, v + 1, Opcode::LoadImmediateInt(x));
            lemma_placed_plain(chunk, at, code, heap, compiled, v + 2, Opcode::Jump(1));
            lemma_placed_plain(chunk, at, code, heap, compiled, v + 3, Opcode::LoadImmediateInt(y));
            if negated {
                assert(code[l] == plain(Opcode::Not, op.position));
                assert(code[s] == plain(Opcode::Not, op.position));
                lemma_placed_plain(chunk, at, code, heap, compiled, l, Opcode::Not);
                lemma_placed_plain(chunk, at, code, heap, compiled, s, Opcode::Not);
            }
        },
        _ => {},
    }
}

/// What follows the test of `and` and `or` where the left operand does
/// not decide: the right operand runs, and the verdict makes the result
/// of it.
proof fn lemma_right_runs(
    e: Expr,
    table: Table,
    closed: Seq<Seq<char>>,
    depth: u16,
    heap: &GC,
    compiled: Map<usize, FunctionAst>,
    chunk: Chunk,
    at: int,
    trace: Seq<VM>,
    k: int,
    j: int,
    values: Seq<Value>,
    done: int,
)
    requires
        e matches Expr::Binary(op, lhs, rhs) && spec_operator_opcode(op.kind) is None,
        evaluate(e) is Some,
        expr_code(e, table, closed, depth) is Ok,
        0 <= done,
        placed(chunk, at + done, expr_code(e, table, closed, depth)->Ok_0, heap, compiled),
        steps(trace),
        0 <= k <= j < trace.len(),
        stands_in(trace[k], chunk, at),
        e matches Expr::Binary(op, lhs, rhs) && reached(
            trace[j],
            trace[k],
            values,
            done + expr_code(*lhs, table, closed, depth)->Ok_0.len() + (if op.kind is Or {
                2int
            } else {
                1int
            }),
        ),
        trace[j].stack@.len() + stack_need(e) <= trace[j].stack_limit,
    ensures
        e matches Expr::Binary(op, lhs, rhs) && runs_on(
            trace,
            k,
            j,
            values,
            done,
            right_length(*rhs, op.kind is Or, run_length(*rhs)),
            match evaluate(*rhs)->Some_0 {
                Ok(b) => Ok(Value::spec_from_bool(b.spec_truthy())),
                Err(kind) => Err(kind),
            },
            expr_code(e, table, closed, depth)->Ok_0.len() as int,
        ),
    decreases e, 0nat,
{
    lemma_logical_layout(e, table, closed, depth, heap, compiled, chunk, at + done);
    match e {
        Expr::Binary(op, lhs, rhs) => {
            let negated = op.kind is Or;
            let n: int = if negated {
                1
            } else {
                0
            };
            let l = expr_code(*lhs, table, closed, depth)->Ok_0.len() as int;
            let r = expr_code(*rhs, table, closed, depth)->Ok_0.len() as int;
            let t = l + n;
            let s = t + 1 + r;
            let v = s + n;
            lemma_stack_need_positive(*lhs);
            lemma_stack_need_positive(*rhs);
            lemma_runs(
                *rhs,
                table,
                closed,
                depth,
                heap,
                compiled,
                chunk,
                at,
                trace,
                k,
                j,
                values,
                done + t + 1,
            );
            match evaluate(*rhs)->Some_0 {
                Err(kind) => {},
                Ok(b) => {
                    let j1 = j + run_length(*rhs);
                    let tested = if negated {
                        Value::spec_from_bool(!b.spec_truthy())
                    } else {
                        b
                    };
                    if j1 < trace.len() && negated {
                        lemma_advance(trace, k, j1, chunk, at, values.push(b), done + s);
                        assert(values.push(b).drop_last().push(tested) =~= values.push(tested));
                    }
                    if j1 + n < trace.len() {
                        lemma_choice_runs(
                            trace,
                            k,
                            j1 + n,
                            chunk,
                            at,
                            values,
                            tested,
                            done + v,
                            if negated {
                                0
                            } else {
                                1
                            },
                            if negated {
                                1
                            } else {
                                0
                            },
                        );
                    }
                },
            }
        },
        _ => {},
    }
}

/// The instructions of `and` and `or` run to what the operator makes of
/// its operands, and leave the right operand alone where the left one
/// decides.
proof fn lemma_logical_runs(
    e: Expr,
    table: Table,
    closed: Seq<Seq<char>>,
    depth: u16,
    heap: &GC,
    compiled: Map<usize, FunctionAst>,
    chunk: Chunk,
    at: int,
    trace: Seq<VM>,
    k: int,
    j: int,
    values: Seq<Value>,
    done: int,
)
    requires
        e matches Expr::Binary(op, lhs, rhs) && spec_operator_opcode(op.kind) is None,
        evaluate(e) is Some,
        expr_code(e, table, closed, depth) is Ok,
        0 <= done,
        placed(chunk, at + done, expr_code(e, table, closed, depth)->Ok_0, heap, compiled),
        steps(trace),
        0 <= k <= j < trace.len(),
        stands_in(trace[k], chunk, at),
        reached(trace[j], trace[k], values, done),
        trace[j].stack@.len() + stack_need(e) <= trace[j].stack_limit,
    ensures
        runs_on(
            trace,
            k,
            j,
            values,
            done,
            run_length(e),
            evaluate(e)->Some_0,
            expr_code(e, table, closed, depth)->Ok_0.len() as int,
        ),
    decreases e, 1nat,
{
    lemma_logical_layout(e, table, closed, depth, heap, compiled, chunk, at + done);
    match e {
        Expr::Binary(op, lhs, rhs) => {
            let negated = op.kind is Or;
            let n: int = if negated {
                1
            } else {
                0
            };
            let l = expr_code(*lhs, table, closed, depth)->Ok_0.len() as int;
            let r = expr_code(*rhs, table, closed, depth)->Ok_0.len() as int;
            let v = l + n + 1 + r + n;
            lemma_stack_need_positive(*lhs);
            lemma_stack_need_positive(*rhs);
            lemma_runs(
                *lhs,
                table,
                closed,
                depth,
                heap,
                compiled,
                chunk,
                at,
                trace,
                k,
                j,
                values,
                done,
            );
            match evaluate(*lhs)->Some_0 {
                Err(kind) => {},
                Ok(a) => {
                    let j1 = j + run_length(*lhs);
                    let tested = if negated {
                        Value::spec_from_bool(!a.spec_truthy())
                    } else {
                        a
                    };
                    if j1 < trace.len() && negated {
                        lemma_advance(trace, k, j1, chunk, at, values.push(a), done + l);
                        assert(values.push(a).drop_last().push(tested) =~= values.push(tested));
                    }
                    if j1 + n < trace.len() {
                        lemma_advance(trace, k, j1 + n, chunk, at, values.push(tested), done + l + n);
                        assert(values.push(tested).drop_last() =~= values);
                    }
                    let j2 = j1 + n + 1;
                    if j2 < trace.len() {
                        if tested.spec_truthy() {
                            lemma_right_runs(
                                e,
                                table,
                                closed,
                                depth,
                                heap,
                                compiled,
                                chunk,
                                at,
                                trace,
                                k,
                                j2,
                                values,
                                done,
                            );
                        } else {
                            lemma_advance(trace, k, j2, chunk, at, values, done + v + 3);
                        }
                    }
                },
            }
        },
        _ => {},
    }
}

/// The instructions of an operator of arithmetic or comparison run to
/// what the operator makes of its operands.
proof fn lemma_arithmetic_runs(
    e: Expr,
    table: Table,
    closed: Seq<Seq<char>>,
    depth: u16,
    heap: &GC,
    compiled: Map<usize, FunctionAst>,
    chunk: Chunk,
    at: int,
    trace: Seq<VM>,
    k: int,
    j: int,
    values: Seq<Value>,
    done: int,
)
    requires
        e matches Expr::Binary(op, lhs, rhs) && spec_operator_opcode(op.kind) is Some,
        evaluate(e) is Some,
        expr_code(e, table, closed, depth) is Ok,
        0 <= done,
        placed(chunk, at + done, expr_code(e, table, closed, depth)->Ok_0, heap, compiled),
        steps(trace),
        0 <= k <= j < trace.len(),
        stands_in(trace[k], chunk, at),
        reached(trace[j], trace[k], values, done),
        trace[j].stack@.len() + stack_need(e) <= trace[j].stack_limit,
    ensures
        runs_on(
            trace,
            k,
            j,
            values,
            done,
            run_length(e),
            evaluate(e)->Some_0,
            expr_code(e, table, closed, depth)->Ok_0.len() as int,
        ),
    decreases e, 0nat,
{
    match e {
        Expr::Binary(op, lhs, rhs) => {
            let opcode = spec_operator_opcode(op.kind)->Some_0;
            let inner = (depth + 1) as u16;
            assert(expr_code(e, table, closed, depth) == binary_code(e, table, closed, depth));
            let left = expr_code(*lhs, table, closed, depth)->Ok_0;
            let right = expr_code(*rhs, table, closed, inner)->Ok_0;
            let code = (left + right).push(plain(opcode, op.position));
            assert(expr_code(e, table, closed, depth) == Ok::<Seq<Emission>, CompileError>(code));
            let l = left.len() as int;
            let r = right.len() as int;
            assert(code.subrange(0, l) =~= left);
            assert(code.subrange(l, l + r) =~= right);
            assert(code[l + r] == plain(opcode, op.position));
            lemma_placed_part(chunk, at + done, code, heap, compiled, 0, left);
            lemma_placed_part(chunk, at + done, code, heap, compiled, l, right);
            lemma_placed_plain(chunk, at + done, code, heap, compiled, l + r, opcode);
            lemma_stack_need_positive(*lhs);
            lemma_stack_need_positive(*rhs);
            lemma_runs(
                *lhs,
                table,
                closed,
                depth,
                heap,
                compiled,
                chunk,
                at,
                trace,
                k,
                j,
                values,
                done,
            );
            match evaluate(*lhs)->Some_0 {
                Err(kind) => {},
                Ok(a) => {
                    let j1 = j + run_length(*lhs);
                    if j1 < trace.len() {
                        lemma_runs(
                            *rhs,
                            table,
                            closed,
                            inner,
                            heap,
                            compiled,
                            chunk,
                            at,
                            trace,
                            k,
                            j1,
                            values.push(a),
                            done + l,
                        );
                        match evaluate(*rhs)->Some_0 {
                            Err(kind) => {},
                            Ok(b) => {
                                let j2 = j1 + run_length(*rhs);
                                let both = values.push(a).push(b);
                                if j2 < trace.len() {
                                    match binary_result(opcode, a, b) {
                                        Ok(value) => {
                                            lemma_advance(
                                                trace,
                                                k,
                                                j2,
                                                chunk,
                                                at,
                                                both,
                                                done + l + r,
                                            );
                                            assert(both.drop_last().drop_last().push(value)
                                                =~= values.push(value));
                                        },
                                        Err(kind) => {
                                            lemma_operator_fails(
                                                trace[j2],
                                                trace[k],
                                                chunk,
                                                at,
                                                both,
                                                done + l + r,
                                                kind,
                                            );
                                        },
                                    }
                                }
                            },
                        }
                    }
                },
            }
        },
        _ => {},
    }
}

/// The instructions of `not` run to the negation of the operand.
proof fn lemma_negation_runs(
    e: Expr,
    table: Table,
    closed: Seq<Seq<char>>,
    depth: u16,
    heap: &GC,
    compiled: Map<usize, FunctionAst>,
    chunk: Chunk,
    at: int,
    trace: Seq<VM>,
    k: int,
    j: int,
    values: Seq<Value>,
    done: int,
)
    requires
        e is Unary,
        evaluate(e) is Some,
        expr_code(e, table, closed, depth) is Ok,
        0 <= done,
        placed(chunk, at + done, expr_code(e, table, closed, depth)->Ok_0, heap, compiled),
        steps(trace),
        0 <= k <= j < trace.len(),
        stands_in(trace[k], chunk, at),
        reached(trace[j], trace[k], values, done),
        trace[j].stack@.len() + stack_need(e) <= trace[j].stack_limit,
    ensures
        runs_on(
            trace,
            k,
            j,
            values,
            done,
            run_length(e),
            evaluate(e)->Some_0,
            expr_code(e, table, closed, depth)->Ok_0.len() as int,
        ),
    decreases e, 0nat,
{
    match e {
        Expr::Unary(op, operand) => {
            let inner = expr_code(*operand, table, closed, depth)->Ok_0;
            let code = inner.push(plain(Opcode::Not, op.position));
            assert(expr_code(e, table, closed, depth) == Ok::<Seq<Emission>, CompileError>(code));
            let l = inner.len() as int;
            assert(code.subrange(0, l) =~= inner);
            assert(code[l] == plain(Opcode::Not, op.position));
            lemma_placed_part(chunk, at + done, code, heap, compiled, 0, inner);
            lemma_placed_plain(chunk, at + done, code, heap, compiled, l, Opcode::Not);
            lemma_runs(
                *operand,
                table,
                closed,
                depth,
                heap,
                compiled,
                chunk,
                at,
                trace,
                k,
                j,
                values,
                done,
            );
            match evaluate(*operand)->Some_0 {
                Err(kind) => {},
                Ok(a) => {
                    let j1 = j + run_length(*operand);
                    if j1 < trace.len() {
                        lemma_advance(trace, k, j1, chunk, at, values.push(a), done + l);
                        assert(values.push(a).drop_last().push(
                            Value::spec_from_bool(!a.spec_truthy()),
                        ) =~= values.push(Value::spec_from_bool(!a.spec_truthy())));
                    }
                },
            }
        },
        _ => {},
    }
}

/// The instructions of an expression over integer literals run to what
/// the expression evaluates to, from a machine that has reached `values`
/// since `trace[k]`.
proof fn lemma_runs(
    e: Expr,
    table: Table,
    closed: Seq<Seq<char>>,
    depth: u16,
    heap: &GC,
    compiled: Map<usize, FunctionAst>,
    chunk: Chunk,
    at: int,
    trace: Seq<VM>,
    k: int,
    j: int,
    values: Seq<Value>,
    done: int,
)
    requires
        evaluate(e) is Some,
        expr_code(e, table, closed, depth) is Ok,
        0 <= done,
        placed(chunk, at + done, expr_code(e, table, closed, depth)->Ok_0, heap, compiled),
        steps(trace),
        0 <= k <= j < trace.len(),
        stands_in(trace[k], chunk, at),
        reached(trace[j], trace[k], values, done),
        trace[j].stack@.len() + stack_need(e) <= trace[j].stack_limit,
    ensures
        runs_on(
            trace,
            k,
            j,
            values,
            done,
            run_length(e),
            evaluate(e)->Some_0,
            expr_code(e, table, closed, depth)->Ok_0.len() as int,
        ),
    decreases e, 2nat,
{
    match e {
        Expr::Number(token) => {
            let code = expr_code(e, table, closed, depth)->Ok_0;
            assert(realizes(
                chunk.code@[at + done + 0],
                code[0].what,
                chunk.constants@,
                heap,
                compiled,
            ));
            lemma_advance(trace, k, j, chunk, at, values, done);
        },
        Expr::Binary(op, lhs, rhs) => {
            if spec_operator_opcode(op.kind) is Some {
                lemma_arithmetic_runs(
                    e,
                    table,
                    closed,
                    depth,
                    heap,
                    compiled,
                    chunk,
                    at,
                    trace,
                    k,
                    j,
                    values,
                    done,
                );
            } else {
                lemma_logical_runs(
                    e,
                    table,
                    closed,
                    depth,
                    heap,
                    compiled,
                    chunk,
                    at,
                    trace,
                    k,
                    j,
                    values,
                    done,
                );
            }
        },
        Expr::Unary(op, operand) => {
            lemma_negation_runs(
                e,
                table,
                closed,
                depth,
                heap,
                compiled,
                chunk,
                at,
                trace,
                k,
                j,
                values,
                done,
            );
        },
        _ => {},
    }
}

/// The instructions of an expression over integer literals run to what
/// the expression evaluates to. Take the machines of a run from one that
/// stands at the first of these instructions with room on its stack.
/// Where the evaluation gives a value, the machine `run_length(e)` moves
/// on has that value on top of its stack and its current frame past the
/// expression, and nothing else has changed. Where the evaluation fails,
/// the next instruction of the machine `run_length(e)` moves on fails,
/// and in the way that the evaluation does. Until then no instruction
/// fails, and no collection comes between: the instructions store
/// nothing.
pub proof fn lemma_expression_runs(
    e: Expr,
    table: Table,
    closed: Seq<Seq<char>>,
    depth: u16,
    heap: &GC,
    compiled: Map<usize, FunctionAst>,
    chunk: Chunk,
    at: int,
    trace: Seq<VM>,
    k: int,
)
    requires
        evaluate(e) is Some,
        expr_code(e, table, closed, depth) is Ok,
        placed(chunk, at, expr_code(e, table, closed, depth)->Ok_0, heap, compiled),
        steps(trace),
        0 <= k < trace.len(),
        stands_in(trace[k], chunk, at),
        trace[k].stack@.len() + stack_need(e) <= trace[k].stack_limit,
    ensures
        runs_to(
            trace,
            k,
            run_length(e),
            evaluate(e)->Some_0,
            expr_code(e, table, closed, depth)->Ok_0.len() as int,
        ),
{
    let none = Seq::<Value>::empty();
    assert(trace[k].stack@ =~= trace[k].stack@ + none);
    assert(trace[k].frames@ =~= trace[k].frames_advanced(0));
    lemma_runs(e, table, closed, depth, heap, compiled, chunk, at, trace, k, k, none, 0);
    if let Ok(value) = evaluate(e)->Some_0 {
        assert(none.push(value) =~= seq![value]);
    }
}

/// `Return` cannot fail where a value lies above the callee slot; it ends
/// the current frame and leaves the top value in the place of the callee.
proof fn lemma_return_step(before: VM, after: VM, chunk: Chunk, at: int)
    requires
        stands_in(before, chunk, at),
        0 <= at < chunk.code@.len(),
        chunk.code@[at] == Opcode::Return,
        before.stack@.len() >= before.frames@.last().base + 2,
    ensures
        goes_on(before),
        follows(after, before) ==> after.frames@ == before.frames@.drop_last() && after.stack@
            == before.stack@.subrange(0, before.frames@.last().base as int).push(
            before.stack@.last(),
        ),
{
    reveal(follows);
    assert(before.current_opcode() == Some(Opcode::Return));
    assert forall|next: VM, result: Result<(), RuntimeError>| #[trigger]
        next.stepped_from(&before, result) implies result is Ok && next.frames@
        == before.frames@.drop_last() && next.stack@ == before.stack@.subrange(
        0,
        before.frames@.last().base as int,
    ).push(before.stack@.last()) by {
        let mid = choose|mid: VM| #[trigger]
            mid.advanced_from(&before, 1) && next.executed_from(
                &mid,
                Opcode::Return,
                kind_of(result),
            );
        assert(mid.has_operands(1));
        assert(next.returned_from(&mid, kind_of(result)));
        assert(mid.frames@.drop_last() =~= before.frames@.drop_last());
    }
}

/// A collection does not move the machine: where one is due, the machine
/// after it stands where the machine before it was placed, in the same
/// chunk and with the same stack and frames, because the function of the
/// current frame is one of the roots.
pub proof fn lemma_collection_keeps_place(before: VM, after: VM, chunk: Chunk, at: int)
    requires
        placed_at(before, chunk, at),
        before.collection_due(),
        after.moved_from(&before),
    ensures
        stands_in(after, chunk, at),
        after.stack == before.stack,
        after.frames == before.frames,
{
    let h = before.frames@.last().function;
    let n = before.frames@.len() as int;
    let roots = before.spec_roots();
    let i = (before.stack@.len() + before.frame_roots(n - 1).len()) as int;
    assert(before.frame_roots(n) == before.frame_roots(n - 1) + seq![Value::Function(h)]
        + before.frames@[n - 1].upvalues@);
    assert(roots[i] == Value::Function(h));
    assert(before.gc.target(roots[i]) == Some(h));
    assert(before.gc.is_root(roots, h));
    let path = seq![h];
    assert(before.gc.is_path(roots, path));
    assert(path.last() == h);
    assert(before.gc.reachable(roots, h));
    assert(after.gc.contains(h));
}

/// The call that starts a run of a function without parameters on an
/// idle machine does not fail.
proof fn lemma_entry_succeeds(
    before: VM,
    pushed: VM,
    entered: VM,
    h: usize,
    outcome: Result<(), RuntimeErrorKind>,
)
    requires
        before.frames@.len() == 0,
        before.gc.contains(h),
        before.gc.object(h) is Function,
        before.gc.object(h)->Function_0.arity == Arity::Exact(0),
        before.gc.object(h)->Function_0.code@.len() <= CODE_LIMIT,
        pushed.only_stack_changed(&before),
        pushed.stack@ == before.stack@.push(Value::Function(h)),
        entered.called_from(&pushed, 0, outcome),
    ensures
        outcome is Ok,
{
    let entry = Value::Function(h);
    assert(pushed.operand(0) == entry);
    assert(pushed.has_operands(1));
    assert(pushed.body_of(entry) == Some((h, Seq::<Value>::empty())));
    assert(entered.function_called_from(&pushed, 0, outcome));
}

/// The call that starts a run of a function without parameters on an
/// idle machine enters the function: its one frame is at the first
/// instruction, with the function itself as the only value above what
/// the stack held.
proof fn lemma_entry_places(before: VM, pushed: VM, first: VM, h: usize)
    requires
        before.frames@.len() == 0,
        before.gc.contains(h),
        before.gc.object(h) is Function,
        before.gc.object(h)->Function_0.arity == Arity::Exact(0),
        before.gc.object(h)->Function_0.code@.len() <= CODE_LIMIT,
        pushed.only_stack_changed(&before),
        pushed.stack@ == before.stack@.push(Value::Function(h)),
        first.called_from(&pushed, 0, Ok(())),
    ensures
        placed_at(first, before.gc.object(h)->Function_0, 0),
        first.frames@.len() == 1,
        first.frames@.last().base == before.stack@.len(),
        first.stack@.len() == before.stack@.len() + 1,
        first.stack_limit == before.stack_limit,
{
    let entry = Value::Function(h);
    assert(pushed.operand(0) == entry);
    assert(pushed.has_operands(1));
    assert(pushed.body_of(entry) == Some((h, Seq::<Value>::empty())));
    assert(first.function_called_from(&pushed, 0, Ok(())));
    assert(first.entered_from(&pushed, 0, h, Seq::<Value>::empty()));
}

/// Where the instructions of a function without parameters stand: those
/// of its body from the first instruction on, and `Return` after them.
proof fn lemma_function_layout(
    function: FunctionAst,
    table: Table,
    compiled: Map<usize, FunctionAst>,
    heap: &GC,
    h: usize,
)
    requires
        function.params.len() == 0,
        !function.vararg,
        is_compilation(heap, h, function, table, compiled),
    ensures
        heap.contains(h),
        heap.object(h) is Function,
        heap.object(h)->Function_0.arity == Arity::Exact(0),
        entry_at(table.infos, function.key) is Some,
        ({
            let chunk = heap.object(h)->Function_0;
            let closed = entry_at(table.infos, function.key)->Some_0.closed_names;
            let body = expr_code(function.body, table, closed, 1);
            &&& body is Ok
            &&& placed(chunk, 0, body->Ok_0, heap, compiled)
            &&& chunk.code@.len() == body->Ok_0.len() + 1
            &&& chunk.code@.len() == function_code(function, table)->Ok_0.len()
            &&& chunk.code@[body->Ok_0.len() as int] == Opcode::Return
        }),
{
    let chunk = heap.object(h)->Function_0;
    let info = entry_at(table.infos, function.key)->Some_0;
    let body = expr_code(function.body, table, info.closed_names, 1)->Ok_0;
    let code = function_code(function, table)->Ok_0;
    assert(prologue_code(function, info.closed_names, 0) =~= Seq::<Emission>::empty());
    assert(code =~= body.push(plain(Opcode::Return, function.key)));
    assert(code.subrange(0, body.len() as int) =~= body);
    lemma_body_is_placed(chunk, code, heap, compiled, 0, body);
    assert(code[body.len() as int] == plain(Opcode::Return, function.key));
}

/// The start of a run of a function without parameters: the call
/// enters the function, and the first machine of the run that is about
/// to run an instruction stands at the first one.
proof fn lemma_run_starts(
    before: VM,
    after: VM,
    h: usize,
    result: Result<Value, RuntimeError>,
    pushed: VM,
    trace: Seq<VM>,
)
    requires
        before.frames@.len() == 0,
        before.gc.contains(h),
        before.gc.object(h) is Function,
        before.gc.object(h)->Function_0.arity == Arity::Exact(0),
        before.gc.object(h)->Function_0.code@.len() <= CODE_LIMIT,
        after.ran_through(&before, Value::Function(h), result, pushed, trace),
    ensures
        trace.len() > 0,
        steps(trace),
        under_way(trace),
        after.ended_from(&trace.last(), before.stack@.len() as int, result),
        ({
            let k: int = if trace[0].collection_due() {
                1
            } else {
                0
            };
            &&& k < trace.len()
            &&& trace[0].frames@.len() > 0
            &&& stands_in(trace[k], before.gc.object(h)->Function_0, 0)
            &&& trace[k].frames@.len() == 1
            &&& trace[k].frames@.last().base == before.stack@.len()
            &&& trace[k].stack@.len() == before.stack@.len() + 1
            &&& trace[k].stack_limit == before.stack_limit
        }),
{
    let chunk = before.gc.object(h)->Function_0;
    if trace.len() == 0 {
        let failed = choose|failed: VM| #[trigger]
            failed.called_from(&pushed, 0, Err(result->Err_0.kind));
        lemma_entry_succeeds(before, pushed, failed, h, Err(result->Err_0.kind));
    }
    let first = trace[0];
    lemma_entry_places(before, pushed, first, h);
    assert(steps(trace)) by {
        reveal(follows);
    }
    assert forall|i: int| 0 <= i < trace.len() - 1 implies (#[trigger] trace[i]).frames@.len()
        > 0 by {
        assert(trace[i + 1].moved_from(&trace[i]));
    }
    if first.collection_due() {
        if trace.len() == 1 {
            assert(trace.last() == first);
            assert(false);
        }
        assert(trace[0int + 1].moved_from(&trace[0]));
        lemma_collection_keeps_place(first, trace[1], chunk, 0);
    }
}

/// A run whose only frame comes to the end of an expression and to
/// `Return` gives the value of the expression, or fails as the expression
/// does.
proof fn lemma_run_ends(
    trace: Seq<VM>,
    k: int,
    n: nat,
    outcome: Result<Value, RuntimeErrorKind>,
    chunk: Chunk,
    at: int,
    after: VM,
    result: Result<Value, RuntimeError>,
)
    requires
        steps(trace),
        under_way(trace),
        0 <= k < trace.len(),
        k == 0 || (k == 1 && trace[0].collection_due() && trace[0].frames@.len() > 0),
        stands_in(trace[k], chunk, 0),
        trace[k].frames@.len() == 1,
        trace[k].frames@.last().base + 1 == trace[k].stack@.len(),
        runs_to(trace, k, n, outcome, at),
        0 <= at < chunk.code@.len(),
        chunk.code@[at] == Opcode::Return,
        after.ended_from(&trace.last(), trace[k].frames@.last().base as int, result),
    ensures
        match outcome {
            Ok(value) => result == Ok::<Value, RuntimeError>(value),
            Err(kind) => result is Err && result->Err_0.kind == kind,
        },
{
    let end = trace.len() - 1;
    let origin = trace[k];
    assert(trace.last() == trace[end]);
    if k <= end < k + n {
        assert(goes_on(trace[end]) && trace[end].frames@.len() > 0);
    }
    let done = trace[k + n];
    match outcome {
        Ok(value) => {
            lemma_reached_stands(done, origin, chunk, 0, seq![value], at);
            let left = if end > k + n {
                trace[k + n + 1]
            } else {
                done
            };
            lemma_return_step(done, left, chunk, at);
            if end > k + n {
                assert(follows(trace[k + n + 1], trace[k + n]));
                assert(left.frames@.len() == 0);
                assert(left.stack@.last() == value);
                assert(left.stack@.len() == origin.frames@.last().base + 1);
            }
        },
        Err(kind) => {
            if end > k + n {
                assert(follows(trace[k + n + 1], trace[k + n]));
                reveal(follows);
            }
        },
    }
}

/// A function without parameters whose body is an expression over
/// integer literals returns what the expression evaluates to. Where the
/// compilation of such a function is run on an idle machine with room on
/// its stack, the run gives the value of the expression, or fails as its
/// evaluation does.
pub proof fn lemma_function_runs_to_its_value(
    function: FunctionAst,
    table: Table,
    compiled: Map<usize, FunctionAst>,
    before: VM,
    after: VM,
    h: usize,
    result: Result<Value, RuntimeError>,
)
    requires
        function.params.len() == 0,
        !function.vararg,
        evaluate(function.body) is Some,
        is_compilation(&before.gc, h, function, table, compiled),
        function_code(function, table)->Ok_0.len() <= CODE_LIMIT,
        before.frames@.len() == 0,
        before.stack@.len() + 1 + stack_need(function.body) <= before.stack_limit,
        after.ran_from(&before, Value::Function(h), result),
    ensures
        match evaluate(function.body)->Some_0 {
            Ok(value) => result == Ok::<Value, RuntimeError>(value),
            Err(kind) => result is Err && result->Err_0.kind == kind,
        },
{
    let e = function.body;
    let chunk = before.gc.object(h)->Function_0;
    let closed = entry_at(table.infos, function.key)->Some_0.closed_names;
    let body = expr_code(e, table, closed, 1)->Ok_0;
    lemma_function_layout(function, table, compiled, &before.gc, h);
    lemma_stack_need_positive(e);
    let (pushed, trace) = choose|pushed: VM, trace: Seq<VM>| #[trigger]
        after.ran_through(&before, Value::Function(h), result, pushed, trace);
    lemma_run_starts(before, after, h, result, pushed, trace);
    let k: int = if trace[0].collection_due() {
        1
    } else {
        0
    };
    lemma_expression_runs(e, table, closed, 1, &before.gc, compiled, chunk, 0, trace, k);
    lemma_run_ends(
        trace,
        k,
        run_length(e),
        evaluate(e)->Some_0,
        chunk,
        body.len() as int,
        after,
        result,
    );
}

/// Constant folding cannot be told from evaluation at run time: a
/// function without parameters whose body is an expression over integer
/// literals, and the function with the optimized form of that body, give
/// the same value when they are run, or fail alike.
pub proof fn lemma_folding_is_not_observed(
    function: FunctionAst,
    folded: FunctionAst,
    referenced: Set<Seq<char>>,
    table: Table,
    compiled: Map<usize, FunctionAst>,
    before: VM,
    after: VM,
    h: usize,
    result: Result<Value, RuntimeError>,
    folded_table: Table,
    folded_compiled: Map<usize, FunctionAst>,
    folded_before: VM,
    folded_after: VM,
    folded_h: usize,
    folded_result: Result<Value, RuntimeError>,
)
    requires
        optimizes_to(function.body, folded.body, referenced),
        evaluate(function.body) is Some,
        function.params.len() == 0,
        !function.vararg,
        is_compilation(&before.gc, h, function, table, compiled),
        function_code(function, table)->Ok_0.len() <= CODE_LIMIT,
        before.frames@.len() == 0,
        before.stack@.len() + 1 + stack_need(function.body) <= before.stack_limit,
        after.ran_from(&before, Value::Function(h), result),
        folded.params.len() == 0,
        !folded.vararg,
        is_compilation(&folded_before.gc, folded_h, folded, folded_table, folded_compiled),
        function_code(folded, folded_table)->Ok_0.len() <= CODE_LIMIT,
        folded_before.frames@.len() == 0,
        folded_before.stack@.len() + 1 + stack_need(folded.body) <= folded_before.stack_limit,
        folded_after.ran_from(&folded_before, Value::Function(folded_h), folded_result),
    ensures
        match evaluate(function.body)->Some_0 {
            Ok(value) => result == Ok::<Value, RuntimeError>(value) && folded_result == result,
            Err(kind) => result is Err && folded_result is Err && result->Err_0.kind == kind
                && folded_result->Err_0.kind == kind,
        },
{
    lemma_folding_preserves_evaluation(function.body, folded.body, referenced);
    lemma_function_runs_to_its_value(function, table, compiled, before, after, h, result);
    lemma_function_runs_to_its_value(
        folded,
        folded_table,
        folded_compiled,
        folded_before,
        folded_after,
        folded_h,
        folded_result,
    );
}

/// Folding does not add to the room that an evaluation needs.
proof fn lemma_folding_needs_no_more(e: Expr, r: Expr, referenced: Set<Seq<char>>)
    requires
        optimizes_to(e, r, referenced),
        evaluate(e) is Some,
    ensures
        stack_need(r) <= stack_need(e),
    decreases e,
{
    lemma_stack_need_positive(e);
    if folded_value(e) is None {
        match e {
            Expr::Binary(op, lhs, rhs) => {
                lemma_folding_needs_no_more(*lhs, *r->Binary_1, referenced);
                lemma_folding_needs_no_more(*rhs, *r->Binary_2, referenced);
            },
            Expr::Unary(op, operand) => {
                lemma_folding_needs_no_more(*operand, *r->Unary_1, referenced);
            },
            _ => {},
        }
    }
}

/// A program that is an expression over integer literals runs to what
/// the expression evaluates to: where its compilation, which folds what
/// it can, is run on an idle machine with room on its stack, the run
/// gives the value of the expression as it stands, or fails as its
/// evaluation does.
pub proof fn lemma_program_runs_to_its_value(
    program: Expr,
    before: VM,
    after: VM,
    entry: Value,
    result: Result<Value, RuntimeError>,
)
    requires
        evaluate(program) is Some,
        is_compiled_program(program, &before.gc, entry),
        entry is Function,
        before.gc.object(entry->Function_0)->Function_0.code@.len() <= CODE_LIMIT,
        before.frames@.len() == 0,
        before.stack@.len() + 1 + stack_need(program) <= before.stack_limit,
        after.ran_from(&before, entry, result),
    ensures
        match evaluate(program)->Some_0 {
            Ok(value) => result == Ok::<Value, RuntimeError>(value),
            Err(kind) => result is Err && result->Err_0.kind == kind,
        },
{
    let (optimized, table, compiled) = choose|
        optimized: Expr,
        table: Table,
        compiled: Map<usize, FunctionAst>,
    |
        {
            &&& #[trigger] optimizes_to(program, optimized, names_of(program))
            &&& walk_program(optimized, builtin_names()) matches Ok(m) && table == (Table {
                variables: m.variables,
                infos: m.infos,
                blocks: m.blocks,
            })
            &&& #[trigger] linked(&before.gc, table, compiled)
            &&& entry matches Value::Function(h) && compiled.contains_key(h) && compiled[h]
                == program_function(optimized)
        };
    let h = entry->Function_0;
    let function = program_function(optimized);
    assert(is_compilation(&before.gc, h, function, table, compiled));
    lemma_folding_preserves_evaluation(program, optimized, names_of(program));
    lemma_folding_needs_no_more(program, optimized, names_of(program));
    lemma_function_runs_to_its_value(function, table, compiled, before, after, h, result);
}

} // verus!
