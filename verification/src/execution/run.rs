use vstd::prelude::*;
use crate::data::objects::{append_values, Value};
use crate::execution::chunk::Opcode;
use crate::execution::vm::{
    fuel, lemma_fuel_advance, lemma_weight_positive, remaining, CallFrame, RuntimeError,
    RuntimeErrorKind, CODE_LIMIT, FRAME_LIMIT, VM,
};
use vstd::arithmetic::power::pow;

verus! {

/// What went wrong, if anything.
pub open spec fn kind_of(result: Result<(), RuntimeError>) -> Result<(), RuntimeErrorKind> {
    match result {
        Ok(_) => Ok(()),
        Err(error) => Err(error.kind),
    }
}

/// With no frame past its last instruction, the fuel is not negative.
pub proof fn lemma_fuel_bounds(frames: Seq<CallFrame>)
    requires
        frames.len() <= FRAME_LIMIT,
        forall|i: int| 0 <= i < frames.len() ==> (#[trigger] frames[i]).ip <= frames[i].code_len,
    ensures
        fuel(frames) >= 0,
        frames.len() > 0 ==> fuel(frames.drop_last()) <= fuel(frames),
    decreases frames.len(),
{
    if frames.len() > 0 {
        let rest = frames.drop_last();
        assert forall|i: int| 0 <= i < rest.len() implies (#[trigger] rest[i]).ip
            <= rest[i].code_len by {
            assert(rest[i] == frames[i]);
        }
        lemma_fuel_bounds(rest);
        let w = pow(CODE_LIMIT + 1, (FRAME_LIMIT + 1 - frames.len()) as nat);
        lemma_weight_positive((FRAME_LIMIT + 1 - frames.len()) as nat);
        assert(frames[frames.len() - 1].ip <= frames[frames.len() - 1].code_len);
        assert(remaining(frames.last()) * w >= 0) by (nonlinear_arith)
            requires
                remaining(frames.last()) >= 0,
                w >= 1,
        ;
    }
}

/// A frame entered after its caller moved on by one instruction leaves
/// less fuel than there was before.
pub proof fn lemma_fuel_call(before: Seq<CallFrame>, moved: Seq<CallFrame>, entered: Seq<CallFrame>)
    requires
        0 < before.len() < FRAME_LIMIT,
        before.last().ip < usize::MAX,
        moved == before.update(
            before.len() - 1,
            CallFrame { ip: (before.last().ip + 1) as usize, ..before.last() },
        ),
        entered.len() == moved.len() + 1,
        entered.drop_last() == moved,
        entered.last().ip == 0,
        entered.last().code_len <= CODE_LIMIT,
    ensures
        fuel(entered) < fuel(before),
{
    lemma_fuel_advance(before, 1);
    let w_new = pow(CODE_LIMIT + 1, (FRAME_LIMIT + 1 - entered.len()) as nat);
    let w_old = pow(CODE_LIMIT + 1, (FRAME_LIMIT + 1 - before.len()) as nat);
    lemma_weight_positive((FRAME_LIMIT + 1 - entered.len()) as nat);
    assert(w_old == (CODE_LIMIT + 1) * w_new) by {
        assert((FRAME_LIMIT + 1 - before.len()) as nat == ((FRAME_LIMIT + 1 - entered.len()) as nat)
            + 1);
        vstd::arithmetic::power::lemma_pow_adds(
            CODE_LIMIT + 1,
            1,
            (FRAME_LIMIT + 1 - entered.len()) as nat,
        );
        vstd::arithmetic::power::lemma_pow1(CODE_LIMIT + 1);
    }
    let r = remaining(entered.last());
    assert(r * w_new <= CODE_LIMIT * w_new) by (nonlinear_arith)
        requires
            0 <= r <= CODE_LIMIT,
            w_new >= 1,
    ;
    assert((CODE_LIMIT + 1) * w_new == CODE_LIMIT * w_new + w_new) by (nonlinear_arith);
}

impl<'a> VM<'a> {
    /// What running the instruction `opcode` does to the machine `before`,
    /// whose current frame has moved past the instruction already.
    pub open spec fn executed_from(
        &self,
        before: &VM,
        opcode: Opcode,
        result: Result<(), RuntimeErrorKind>,
    ) -> bool {
        match opcode {
            Opcode::StoreLocal(slot) => self.store_local_effect(before, slot, result),
            Opcode::StoreUpvalue(slot) => self.store_upvalue_effect(before, slot, result),
            Opcode::StoreGlobal(ix) => self.store_global_effect(before, ix, result),
            Opcode::MakeCell => self.make_cell_effect(before, result),
            Opcode::StoreCell => self.store_cell_instruction_effect(before, result),
            Opcode::Jump(distance) => self.jump_instruction_effect(before, distance, false, result),
            Opcode::JumpIfFalse(distance) => self.jump_instruction_effect(
                before,
                distance,
                true,
                result,
            ),
            Opcode::Call(argc) => self.called_from(before, argc as int, result),
            Opcode::PartialCall(argc) => self.partially_applied_from(before, argc as int, result),
            Opcode::MakeClosure(ix, count) => self.closure_made_from(before, ix, count, result),
            Opcode::GetProperty(ix) => self.property_read_from(before, ix, result),
            Opcode::SetProperty(ix) => self.property_written_from(before, ix, result),
            Opcode::HasProperty(ix) => self.property_tested_from(before, ix, result),
            Opcode::SetMethod(ix) => self.method_set_from(before, ix, result),
            Opcode::NewStruct(ix, count) => self.struct_made_from(before, ix, count, result),
            Opcode::Print => self.print_effect(before, result),
            Opcode::Return => self.returned_from(before, result),
            _ => match before.evaluation(opcode) {
                Some((taken, outcome)) => self.evaluated_from(before, taken, outcome, result),
                None => false,
            },
        }
    }

    /// Where the machine stands: the function of the current frame and the
    /// index of its next instruction.
    pub open spec fn position(&self) -> (Value, usize) {
        if self.frames@.len() > 0 {
            (Value::Function(self.frames@.last().function), self.frames@.last().ip)
        } else {
            (Value::Nothing, 0)
        }
    }

    /// Whether `self` is what one instruction makes of `before`. The
    /// machine fails where there is no next instruction. Else the current
    /// frame moves past the instruction, and the instruction is run. A
    /// failure names the function and the index of the instruction.
    pub open spec fn stepped_from(&self, before: &VM, result: Result<(), RuntimeError>) -> bool {
        &&& result matches Err(error) ==> (error.chunk, error.opcode_index) == before.position()
        &&& match before.current_opcode() {
            None => result is Err && result->Err_0.kind is InvalidBytecode,
            Some(opcode) => exists|mid: VM| #[trigger]
                mid.advanced_from(before, 1) && self.executed_from(&mid, opcode, kind_of(result)),
        }
    }

    fn execute(&mut self, opcode: Opcode) -> (result: Result<(), RuntimeErrorKind>)
        requires
            old(self).wf(),
            old(self).frames@.len() > 0,
        ensures
            final(self).wf(),
            final(self).executed_from(old(self), opcode, result),
            result is Ok ==> fuel(final(self).frames@) <= fuel(old(self).frames@) || (final(self).frames@.len() == old(self).frames@.len() + 1 && final(self).frames@.drop_last()
                == old(self).frames@ && final(self).frames@.last().ip == 0),
    {
        proof {
            lemma_fuel_bounds(self.frames@);
        }
        match opcode {
            Opcode::StoreLocal(slot) => self.store_local(slot),
            Opcode::StoreUpvalue(slot) => self.store_upvalue(slot),
            Opcode::StoreGlobal(ix) => self.store_global(ix),
            Opcode::MakeCell => self.make_cell(),
            Opcode::StoreCell => self.store_cell(),
            Opcode::Jump(distance) => self.jump(distance, false),
            Opcode::JumpIfFalse(distance) => self.jump(distance, true),
            Opcode::Call(argc) => self.call(argc as usize),
            Opcode::PartialCall(argc) => self.partial_call(argc as usize),
            Opcode::MakeClosure(ix, count) => self.make_closure(ix, count),
            Opcode::GetProperty(ix) => self.get_property(ix),
            Opcode::SetProperty(ix) => self.set_property(ix),
            Opcode::HasProperty(ix) => self.has_property(ix),
            Opcode::SetMethod(ix) => self.set_method(ix),
            Opcode::NewStruct(ix, count) => self.new_struct(ix, count),
            Opcode::Print => self.print(),
            Opcode::Return => self.return_value(),
            _ => self.evaluate(opcode),
        }
    }

    /// Runs one instruction.
    pub fn step(&mut self) -> (result: Result<(), RuntimeError>)
        requires
            old(self).wf(),
        ensures
            final(self).wf(),
            forall|i: int|
                0 <= i < final(self).frames@.len() ==> (#[trigger] final(self).frames@[i]).base
                    <= final(self).stack@.len(),
            final(self).stepped_from(old(self), result),
            result is Ok ==> 0 <= fuel(final(self).frames@) < fuel(old(self).frames@),
    {
        let (chunk, opcode_index) = if self.frames.len() > 0 {
            let top = self.frames.len() - 1;
            (Value::Function(self.frames[top].function), self.frames[top].ip)
        } else {
            (Value::Nothing, 0)
        };
        let opcode = match self.fetch() {
            Ok(opcode) => opcode,
            Err(kind) => {
                return Err(RuntimeError { kind, chunk, opcode_index });
            },
        };
        let ghost mid = *self;
        let outcome = self.execute(opcode);
        let result = match outcome {
            Ok(_) => Ok(()),
            Err(kind) => Err(RuntimeError { kind, chunk, opcode_index }),
        };
        proof {
            assert(mid.advanced_from(old(self), 1));
            assert(self.executed_from(&mid, opcode, kind_of(result)));
            if result is Ok {
                lemma_fuel_bounds(self.frames@);
                if !(fuel(self.frames@) <= fuel(mid.frames@)) {
                    lemma_fuel_call(old(self).frames@, mid.frames@, self.frames@);
                }
            }
        }
        result
    }

    /// The values that a collection starts from: every value on the stack,
    /// every captured binding and the function of every frame, and every
    /// global.
    pub open spec fn spec_roots(&self) -> Seq<Value> {
        self.stack@ + self.frame_roots(self.frames@.len() as int) + self.globals_view().map_values(
            |global: (Seq<char>, Value)| global.1,
        )
    }

    /// The captured bindings and the functions of the first `n` frames.
    pub open spec fn frame_roots(&self, n: int) -> Seq<Value>
        decreases n,
    {
        if n <= 0 {
            Seq::empty()
        } else {
            self.frame_roots(n - 1) + seq![Value::Function(self.frames@[n - 1].function)]
                + self.frames@[n - 1].upvalues@
        }
    }

    pub fn roots(&self) -> (roots: Vec<Value>)
        ensures
            roots@ == self.spec_roots(),
    {
        let mut roots: Vec<Value> = Vec::new();
        append_values(&mut roots, &self.stack);
        let mut i: usize = 0;
        while i < self.frames.len()
            invariant
                i <= self.frames.len(),
                roots@ == self.stack@ + self.frame_roots(i as int),
            decreases self.frames.len() - i,
        {
            roots.push(Value::Function(self.frames[i].function));
            append_values(&mut roots, &self.frames[i].upvalues);
            i += 1;
            assert(roots@ =~= self.stack@ + self.frame_roots(i as int));
        }
        let mut g: usize = 0;
        while g < self.globals.len()
            invariant
                g <= self.globals.len(),
                roots@ == self.stack@ + self.frame_roots(self.frames@.len() as int)
                    + self.globals_view().subrange(0, g as int).map_values(
                    |global: (Seq<char>, Value)| global.1,
                ),
            decreases self.globals.len() - g,
        {
            roots.push(self.globals[g].1);
            g += 1;
            assert(roots@ =~= self.stack@ + self.frame_roots(self.frames@.len() as int)
                + self.globals_view().subrange(0, g as int).map_values(
                |global: (Seq<char>, Value)| global.1,
            ));
        }
        assert(self.globals_view().subrange(0, g as int) =~= self.globals_view());
        roots
    }

    /// Whether `self` is `before` after a collection that started from its
    /// roots: nothing but the heap has changed, and the heap holds what
    /// could be reached.
    pub open spec fn collected_from(&self, before: &VM) -> bool {
        &&& self.builtins == before.builtins
        &&& self.stack == before.stack
        &&& self.frames == before.frames
        &&& self.globals == before.globals
        &&& self.output == before.output
        &&& self.stack_limit == before.stack_limit
        &&& before.gc.collected_to(&self.gc, before.spec_roots())
        &&& self.gc.allocations == 0
        &&& self.gc.threshold == before.gc.threshold
    }

    /// Frees the objects that cannot be reached from the machine's roots.
    pub fn collect_garbage(&mut self)
        requires
            old(self).wf(),
        ensures
            final(self).wf(),
            final(self).collected_from(old(self)),
    {
        let roots = self.roots();
        self.gc.collect(&roots);
    }

    /// Whether a collection is due: as many objects were stored since the
    /// last one as the threshold says, and the threshold is not zero.
    pub open spec fn collection_due(&self) -> bool {
        self.gc.allocations >= self.gc.threshold && self.gc.threshold > 0
    }

    /// Whether `self` is what one move makes of `before`: a collection
    /// where one is due, and else an instruction that ran.
    pub open spec fn moved_from(&self, before: &VM) -> bool {
        if before.collection_due() {
            self.collected_from(before)
        } else {
            self.stepped_from(before, Ok(()))
        }
    }

    /// The end of a run that got under way with the machine `last`: with no
    /// frame left, the result is the value that the entry function left in
    /// its callee slot, and the machine is left with that value taken off;
    /// with a frame left, the run ended in the failure of the next
    /// instruction, and the machine is left as the instruction left it,
    /// but without values and frames.
    pub open spec fn ended_from(&self, last: &VM, height: int, result: Result<Value, RuntimeError>) -> bool {
        if last.frames@.len() == 0 {
            if last.stack@.len() > height {
                &&& result == Ok::<Value, RuntimeError>(last.stack@.last())
                &&& self.only_stack_changed(last)
                &&& self.stack@ == last.stack@.subrange(0, height)
            } else {
                result is Err && result->Err_0.kind is InvalidBytecode && *self == *last
            }
        } else {
            &&& result is Err
            &&& !last.collection_due()
            &&& exists|failed: VM| #[trigger]
                failed.stepped_from(last, Err(result->Err_0)) && self.cleared_from(&failed)
        }
    }

    /// Whether `self` is the machine `failed` without values and frames.
    pub open spec fn cleared_from(&self, failed: &VM) -> bool {
        &&& self.gc == failed.gc
        &&& self.builtins == failed.builtins
        &&& self.globals == failed.globals
        &&& self.output == failed.output
        &&& self.stack_limit == failed.stack_limit
        &&& self.frames@.len() == 0
        &&& self.stack@.len() == 0
    }

    /// Whether `self` is what running `entry_point` makes of the idle
    /// machine `before`. The entry value is pushed and called without
    /// arguments. Then the machine moves, by a collection where one is due
    /// and else by the next instruction, until the frame stack is empty
    /// again or an instruction fails.
    pub open spec fn ran_from(
        &self,
        before: &VM,
        entry_point: Value,
        result: Result<Value, RuntimeError>,
    ) -> bool {
        if before.stack@.len() >= before.stack_limit {
            result is Err && result->Err_0.kind is StackOverflow && result->Err_0.chunk
                == entry_point && *self == *before
        } else {
            exists|pushed: VM, trace: Seq<VM>| #[trigger]
                self.ran_through(before, entry_point, result, pushed, trace)
        }
    }

    /// Whether `self` is what running `entry_point` makes of `before` by
    /// way of the machines `trace`, the first of which is the machine
    /// `pushed`, which holds the entry value, after the call. Each of them
    /// is well formed. An empty trace stands for a call that failed.
    pub open spec fn ran_through(
        &self,
        before: &VM,
        entry_point: Value,
        result: Result<Value, RuntimeError>,
        pushed: VM,
        trace: Seq<VM>,
    ) -> bool {
        &&& pushed.only_stack_changed(before)
        &&& pushed.stack@ == before.stack@.push(entry_point)
        &&& if trace.len() == 0 {
            &&& result is Err
            &&& result->Err_0.chunk == entry_point
            &&& exists|failed: VM| #[trigger]
                failed.called_from(&pushed, 0, Err(result->Err_0.kind)) && self.cleared_from(
                    &failed,
                )
        } else {
            &&& trace[0].called_from(&pushed, 0, Ok(()))
            &&& forall|i: int| 0 <= i < trace.len() ==> (#[trigger] trace[i]).wf()
            &&& forall|i: int|
                0 <= i < trace.len() - 1 ==> (#[trigger] trace[i + 1]).moved_from(&trace[i])
                    && trace[i].frames@.len() > 0
            &&& self.ended_from(&trace.last(), before.stack@.len() as int, result)
        }
    }

    /// Runs a function value to its end and returns what it returns. The
    /// loop ends because every instruction takes from the machine's fuel.
    pub fn run(&mut self, entry_point: Value) -> (result: Result<Value, RuntimeError>)
        requires
            old(self).wf(),
            old(self).frames@.len() == 0,
        ensures
            final(self).wf(),
            final(self).frames@.len() == 0,
            final(self).ran_from(old(self), entry_point, result),
    {
        let height = self.stack.len();
        match self.push(entry_point) {
            Ok(_) => {},
            Err(kind) => {
                return Err(RuntimeError { kind, chunk: entry_point, opcode_index: 0 });
            },
        }
        let ghost pushed = *self;
        match self.call(0) {
            Ok(_) => {},
            Err(kind) => {
                let ghost failed = *self;
                self.stack.clear();
                self.frames.clear();
                let result = Err(RuntimeError { kind, chunk: entry_point, opcode_index: 0 });
                proof {
                    assert(failed.called_from(&pushed, 0, Err(result->Err_0.kind)));
                    assert(self.ran_through(
                        old(self),
                        entry_point,
                        result,
                        pushed,
                        Seq::<VM>::empty(),
                    ));
                }
                return result;
            },
        }
        let ghost mut trace: Seq<VM> = seq![*self];
        proof {
            lemma_fuel_bounds(self.frames@);
        }
        while self.frames.len() > 0
            invariant
                self.wf(),
                trace.len() > 0,
                pushed.only_stack_changed(old(self)),
                pushed.stack@ == old(self).stack@.push(entry_point),
                old(self).stack@.len() < old(self).stack_limit,
                trace[0].called_from(&pushed, 0, Ok(())),
                forall|i: int| 0 <= i < trace.len() ==> (#[trigger] trace[i]).wf(),
                forall|i: int|
                    0 <= i < trace.len() - 1 ==> (#[trigger] trace[i + 1]).moved_from(&trace[i])
                        && trace[i].frames@.len() > 0,
                trace.last() == *self,
                fuel(self.frames@) >= 0,
            decreases fuel(self.frames@), if self.gc.allocations >= self.gc.threshold { 1int } else { 0int },
        {
            if self.gc.should_collect() && self.gc.threshold > 0 {
                let ghost before = *self;
                self.collect_garbage();
                proof {
                    assert(self.moved_from(&before));
                    trace = trace.push(*self);
                    assert(self.frames@ == before.frames@);
                    assert(self.gc.allocations == 0);
                    assert(self.gc.threshold == before.gc.threshold);
                }
            } else {
                let ghost before = *self;
                match self.step() {
                    Ok(_) => {
                        proof {
                            assert(self.moved_from(&before));
                            trace = trace.push(*self);
                        }
                    },
                    Err(error) => {
                        let ghost failed = *self;
                        self.stack.clear();
                        self.frames.clear();
                        let result = Err(error);
                        proof {
                            assert(failed.stepped_from(&before, Err(result->Err_0)));
                            assert(self.ended_from(&trace.last(), old(self).stack@.len() as int, result));
                            assert(self.ran_through(old(self), entry_point, result, pushed, trace));
                        }
                        return result;
                    },
                }
            }
        }
        let ghost last = *self;
        let result = if self.stack.len() > height {
            let value = self.stack[self.stack.len() - 1];
            self.stack.truncate(height);
            Ok(value)
        } else {
            Err(
                RuntimeError {
                    kind: RuntimeErrorKind::InvalidBytecode,
                    chunk: entry_point,
                    opcode_index: 0,
                },
            )
        };
        proof {
            assert(self.ended_from(&trace.last(), old(self).stack@.len() as int, result));
            assert(self.ran_through(old(self), entry_point, result, pushed, trace));
        }
        result
    }
}

} // verus!
