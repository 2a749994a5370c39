use vstd::prelude::*;
use crate::data::objects::Value;
use crate::execution::arity::Arity;
use crate::execution::vm::{RuntimeError, RuntimeErrorKind, VM};

verus! {

/// The callee slot of every live frame lies on the operand stack: in a
/// well-formed machine no frame's base is beyond the stack's length. Every
/// instruction leaves the machine well formed, so this holds after any of
/// them.
pub proof fn lemma_frames_lie_on_the_stack(vm: VM, i: int)
    requires
        vm.wf(),
        0 <= i < vm.frames@.len(),
    ensures
        vm.frames@[i].base <= vm.stack@.len(),
        vm.stack@.len() >= vm.frames@[i].base,
{
}

/// After any instruction of a run, and after any collection between two
/// of them, the callee slot of every live frame lies on the operand
/// stack.
pub proof fn lemma_frames_lie_on_the_stack_in_a_run(
    before: VM,
    after: VM,
    entry_point: Value,
    result: Result<Value, RuntimeError>,
    pushed: VM,
    trace: Seq<VM>,
    i: int,
    frame: int,
)
    requires
        after.ran_through(&before, entry_point, result, pushed, trace),
        0 <= i < trace.len(),
        0 <= frame < trace[i].frames@.len(),
    ensures
        trace[i].frames@[frame].base <= trace[i].stack@.len(),
        trace[i].stack@.len() >= trace[i].frames@[frame].base,
{
    lemma_frames_lie_on_the_stack(trace[i], frame);
}

/// A function of arity `Exact(k)` that is called with another number of
/// arguments is not entered: the call is an arity mismatch that names
/// both numbers.
pub proof fn lemma_exact_arity_is_enforced(
    before: VM,
    after: VM,
    argc: int,
    k: usize,
    result: Result<(), RuntimeErrorKind>,
)
    requires
        0 <= argc,
        before.has_operands(argc + 1),
        before.body_of(before.operand(argc)) is Some,
        before.gc.object(before.body_of(before.operand(argc))->Some_0.0)->Function_0.arity
            == Arity::Exact(k),
        argc != k,
        after.called_from(&before, argc, result),
    ensures
        result == Err::<(), RuntimeErrorKind>(
            RuntimeErrorKind::ArityMismatch { provided: argc as usize, expected: Arity::Exact(k) },
        ),
{
}

/// A value written to a cell is what every holder of the cell reads
/// afterwards: the frame that declared the local and each closure that
/// captured it hold the same cell, so a write inside a closure is seen
/// outside of it. No other cell changes.
pub proof fn lemma_cell_write_is_seen_by_all(
    before: VM,
    after: VM,
    cell: Value,
    value: Value,
    taken: int,
    other: Value,
)
    requires
        before.wf(),
        after.store_cell_effect(&before, cell, value, taken, Ok(())),
    ensures
        after.cell_content(cell) == Some(value),
        other != cell ==> after.cell_content(other) == before.cell_content(other),
{
    if before.cell_content(cell) is Some {
        let h = cell.spec_handle()->Some_0;
        assert(after.gc.contains(h) == before.gc.contains(h));
        match other {
            Value::Cell(o) => {
                if o != h {
                    assert(after.gc.contains(o) == before.gc.contains(o));
                }
            },
            _ => {},
        }
    }
}

/// A closure holds the very values that were on the stack when it was
/// made: a captured cell is the cell of the declaring frame, not a copy of
/// its content.
pub proof fn lemma_closure_shares_captured_cells(
    before: VM,
    after: VM,
    ix: u16,
    count: u16,
    i: int,
)
    requires
        after.closure_made_from(&before, ix, count, Ok(())),
        0 <= i < count,
    ensures
        before.has_operands(count as int),
        after.closure_of(after.stack@.last()) is Some,
        after.closure_of(after.stack@.last())->Some_0.1[i] == before.stack@[before.stack@.len()
            - count + i],
{
}

} // verus!
