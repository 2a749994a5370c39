use vstd::prelude::*;
use crate::data::objects::{Closure, Instance, OwnedObjectItem, PartialApp, Value};
use crate::execution::arity::Arity;
use crate::execution::builtins::{applied, Applied, BuiltinError};
use crate::execution::partial::{
    as_slot, count_holes, fill, fill_in, fill_slots, filled, holes, slot_values, to_slots,
    values_of,
};
use crate::execution::vm::{CallFrame, RuntimeErrorKind, CODE_LIMIT, FRAME_LIMIT, VM};

verus! {

impl<'a> VM<'a> {
    /// The top `argc` values of the stack, lowest first.
    pub open spec fn arguments(&self, argc: int) -> Seq<Value> {
        self.stack@.subrange(self.stack@.len() - argc, self.stack@.len() as int)
    }

    /// The body that a function value runs and the bindings that it
    /// captured: a plain function has none.
    pub open spec fn body_of(&self, callee: Value) -> Option<(usize, Seq<Value>)> {
        match callee {
            Value::Function(h) => if self.gc.contains(h) {
                match self.gc.object(h) {
                    OwnedObjectItem::Function(_) => Some((h, Seq::empty())),
                    OwnedObjectItem::Closure(closure) => if self.gc.contains(closure.function)
                        && self.gc.object(closure.function) is Function {
                        Some((closure.function, closure.upvalues@))
                    } else {
                        None
                    },
                    _ => None,
                }
            } else {
                None
            },
            _ => None,
        }
    }

    pub fn find_body(&self, callee: Value) -> (found: Option<(usize, Vec<Value>)>)
        ensures
            found is Some == self.body_of(callee) is Some,
            found is Some ==> found->Some_0.0 == self.body_of(callee)->Some_0.0
                && found->Some_0.1@ == self.body_of(callee)->Some_0.1,
    {
        match callee {
            Value::Function(h) => match self.gc.get(h) {
                Some(OwnedObjectItem::Function(_)) => Some((h, Vec::new())),
                Some(OwnedObjectItem::Closure(closure)) => match self.gc.get(closure.function) {
                    Some(OwnedObjectItem::Function(_)) => {
                        let mut upvalues: Vec<Value> = Vec::new();
                        crate::data::objects::append_values(&mut upvalues, &closure.upvalues);
                        assert(upvalues@ =~= closure.upvalues@);
                        Some((closure.function, upvalues))
                    },
                    _ => None,
                },
                _ => None,
            },
            _ => None,
        }
    }

    /// The callee and the argument slots of the partial application that a
    /// value names.
    pub open spec fn partial_of(&self, value: Value) -> Option<(Value, Seq<Option<Value>>)> {
        match value {
            Value::Partial(h) => if self.gc.contains(h) {
                match self.gc.object(h) {
                    OwnedObjectItem::Partial(partial) => Some(
                        (partial.callee, partial.bound_args@),
                    ),
                    _ => None,
                }
            } else {
                None
            },
            _ => None,
        }
    }

    /// Whether `self` is `before` with the values from the stack slot
    /// `keep` upward gathered in a new list, which takes their place.
    pub open spec fn packed_from(&self, before: &VM, keep: int) -> bool {
        &&& self.only_stack_and_heap_changed(before)
        &&& self.gc.grown_from(&before.gc)
        &&& self.gc.spec_list(Value::List(before.gc.next_handle())) == Some(
            before.stack@.subrange(keep, before.stack@.len() as int),
        )
        &&& self.stack@ == before.stack@.subrange(0, keep).push(
            Value::List(before.gc.next_handle()),
        )
    }

    fn pack(&mut self, keep: usize) -> (result: Result<(), RuntimeErrorKind>)
        requires
            old(self).wf(),
            old(self).operand_floor() <= keep <= old(self).stack@.len(),
        ensures
            final(self).wf(),
            keep == old(self).stack@.len() && old(self).stack@.len() >= old(self).stack_limit
                ==> result == Err::<(), RuntimeErrorKind>(RuntimeErrorKind::StackOverflow)
                && *final(self) == *old(self),
            !(keep == old(self).stack@.len() && old(self).stack@.len() >= old(self).stack_limit)
                ==> result is Ok && final(self).packed_from(old(self), keep as int),
    {
        if keep == self.stack.len() && self.stack.len() >= self.stack_limit {
            return Err(RuntimeErrorKind::StackOverflow);
        }
        let surplus = self.stack.split_off(keep);
        let list = self.gc.store(OwnedObjectItem::List(surplus));
        self.stack.push(list);
        Ok(())
    }

    /// Whether `self` is `before` with a new frame for the function body
    /// `body`, whose callee slot lies `argc` values below the top.
    pub open spec fn entered_from(
        &self,
        before: &VM,
        argc: int,
        body: usize,
        upvalues: Seq<Value>,
    ) -> bool {
        &&& self.gc == before.gc
        &&& self.builtins == before.builtins
        &&& self.stack == before.stack
        &&& self.globals == before.globals
        &&& self.output == before.output
        &&& self.stack_limit == before.stack_limit
        &&& self.frames@.len() == before.frames@.len() + 1
        &&& self.frames@.drop_last() == before.frames@
        &&& self.frames@.last().function == body
        &&& self.frames@.last().ip == 0
        &&& self.frames@.last().base == before.stack@.len() - 1 - argc
        &&& self.frames@.last().upvalues@ == upvalues
        &&& self.frames@.last().code_len == before.gc.object(body)->Function_0.code@.len()
    }

    /// What calling a function with `argc` arguments does. The call fails
    /// with an arity mismatch where the function's arity does not admit
    /// that many arguments, and with a stack overflow where the frame stack
    /// is full. Else the arguments beyond the required ones of a function
    /// that takes more are gathered in a list, and a new frame is entered.
    pub open spec fn function_called_from(
        &self,
        before: &VM,
        argc: int,
        result: Result<(), RuntimeErrorKind>,
    ) -> bool {
        match before.body_of(before.operand(argc)) {
            None => result == Err::<(), RuntimeErrorKind>(RuntimeErrorKind::RuntimeTypeError),
            Some((body, upvalues)) => {
                let chunk = before.gc.object(body)->Function_0;
                if !chunk.arity.spec_accepts(argc as nat) {
                    result == Err::<(), RuntimeErrorKind>(
                        RuntimeErrorKind::ArityMismatch {
                            provided: argc as usize,
                            expected: chunk.arity,
                        },
                    )
                } else if chunk.code@.len() > CODE_LIMIT {
                    result == Err::<(), RuntimeErrorKind>(RuntimeErrorKind::InvalidBytecode)
                } else if before.frames@.len() >= FRAME_LIMIT {
                    result == Err::<(), RuntimeErrorKind>(RuntimeErrorKind::StackOverflow)
                } else {
                    match chunk.arity {
                        Arity::Exact(_) => result is Ok && self.entered_from(
                            before,
                            argc,
                            body,
                            upvalues,
                        ),
                        Arity::AtLeast(k) => if argc == k && before.stack@.len()
                            >= before.stack_limit {
                            result == Err::<(), RuntimeErrorKind>(RuntimeErrorKind::StackOverflow)
                        } else {
                            result is Ok && exists|mid: VM| #[trigger]
                                mid.packed_from(before, before.stack@.len() - argc + k)
                                    && self.entered_from(&mid, k + 1, body, upvalues)
                        },
                    }
                }
            },
        }
    }

    fn call_function(&mut self, argc: usize) -> (result: Result<(), RuntimeErrorKind>)
        requires
            old(self).wf(),
            old(self).has_operands(argc + 1),
        ensures
            final(self).wf(),
            final(self).function_called_from(old(self), argc as int, result),
            result is Ok ==> final(self).frames@.len() == old(self).frames@.len() + 1 && final(self).frames@.drop_last() == old(self).frames@ && final(self).frames@.last().ip == 0,
    {
        let height = self.stack.len();
        let callee_slot = height - 1 - argc;
        let (body, upvalues) = match self.find_body(self.stack[callee_slot]) {
            Some(found) => found,
            None => {
                return Err(RuntimeErrorKind::RuntimeTypeError);
            },
        };
        let (arity, code_len) = match self.gc.get(body) {
            Some(OwnedObjectItem::Function(chunk)) => (chunk.arity, chunk.code.len()),
            _ => {
                return Err(RuntimeErrorKind::RuntimeTypeError);
            },
        };
        if !arity.accepts(argc) {
            return Err(RuntimeErrorKind::ArityMismatch { provided: argc, expected: arity });
        }
        if code_len > CODE_LIMIT {
            return Err(RuntimeErrorKind::InvalidBytecode);
        }
        if self.frames.len() >= FRAME_LIMIT {
            return Err(RuntimeErrorKind::StackOverflow);
        }
        let ghost upvalues_view = upvalues@;
        match arity {
            Arity::Exact(_) => {},
            Arity::AtLeast(k) => {
                match self.pack(callee_slot + 1 + k) {
                    Ok(_) => {},
                    Err(kind) => {
                        return Err(kind);
                    },
                }
            },
        }
        let ghost mid = *self;
        self.frames.push(CallFrame { function: body, code_len, ip: 0, base: callee_slot, upvalues });
        proof {
            assert(self.frames@.drop_last() =~= mid.frames@);
            match arity {
                Arity::Exact(_) => {
                    assert(self.entered_from(old(self), argc as int, body, upvalues_view));
                },
                Arity::AtLeast(k) => {
                    assert(mid.packed_from(old(self), old(self).stack@.len() - argc + k));
                    assert(self.entered_from(&mid, k + 1, body, upvalues_view));
                },
            }
            assert forall|i: int, j: int| 0 <= i < j < self.frames@.len() implies (
            #[trigger] self.frames@[i]).base < (#[trigger] self.frames@[j]).base by {
                if j == self.frames@.len() - 1 {
                    assert(self.frames@[i] == old(self).frames@[i]);
                    assert(old(self).frames@[i].base <= old(self).frames@.last().base);
                }
            }
        }
        Ok(())
    }

    /// Whether `self` is `before` with the callee and its `argc` arguments
    /// replaced by what applying a builtin came to.
    pub open spec fn applied_from(
        &self,
        before: &VM,
        argc: int,
        outcome: Applied,
        result: Result<(), RuntimeErrorKind>,
    ) -> bool {
        match outcome {
            Applied::Returned(value) => result is Ok && self.only_stack_changed(before)
                && self.stack@ == before.stack@.subrange(0, before.stack@.len() - argc - 1).push(
                value,
            ),
            Applied::ArityMismatch { provided, expected } => result == Err::<
                (),
                RuntimeErrorKind,
            >(RuntimeErrorKind::ArityMismatch { provided, expected }),
            Applied::Failed(text) => result is Err && result->Err_0 is BuiltinFailed
                && result->Err_0->BuiltinFailed_0@ == text,
        }
    }

    fn finish_application(&mut self, argc: usize, outcome: Result<Value, BuiltinError>) -> (result:
        Result<(), RuntimeErrorKind>)
        requires
            old(self).wf(),
            old(self).has_operands(argc + 1),
        ensures
            final(self).wf(),
            final(self).frames == old(self).frames,
            final(self).applied_from(old(self), argc as int, applied(outcome), result),
    {
        match outcome {
            Ok(value) => {
                let height = self.stack.len();
                self.stack.truncate(height - argc - 1);
                self.stack.push(value);
                Ok(())
            },
            Err(BuiltinError::ArityMismatch { provided, expected }) => Err(
                RuntimeErrorKind::ArityMismatch { provided, expected },
            ),
            Err(BuiltinError::Other(text)) => Err(RuntimeErrorKind::BuiltinFailed(text)),
        }
    }

    /// What calling the native function at index `ix` with `argc` arguments
    /// does. The arguments beyond the required ones of a function that
    /// takes more are gathered in a list first. Then the function is
    /// applied, and what it returns takes the place of the callee and the
    /// arguments.
    pub open spec fn builtin_called_from(
        &self,
        before: &VM,
        argc: int,
        ix: usize,
        result: Result<(), RuntimeErrorKind>,
    ) -> bool {
        match before.builtins.spec_builtin_arity(ix) {
            None => result == Err::<(), RuntimeErrorKind>(RuntimeErrorKind::UnknownBuiltin),
            Some(Arity::Exact(_)) => self.applied_from(
                before,
                argc,
                before.builtins.spec_apply_builtin(ix, before.arguments(argc), before),
                result,
            ),
            Some(Arity::AtLeast(k)) => if argc < k {
                result == Err::<(), RuntimeErrorKind>(
                    RuntimeErrorKind::ArityMismatch {
                        provided: argc as usize,
                        expected: Arity::AtLeast(k),
                    },
                )
            } else if argc == k && before.stack@.len() >= before.stack_limit {
                result == Err::<(), RuntimeErrorKind>(RuntimeErrorKind::StackOverflow)
            } else {
                exists|mid: VM| #[trigger]
                    mid.packed_from(before, before.stack@.len() - argc + k) && self.applied_from(
                        &mid,
                        k + 1,
                        before.builtins.spec_apply_builtin(ix, mid.arguments(k + 1), &mid),
                        result,
                    )
            },
        }
    }

    fn call_builtin(&mut self, argc: usize, ix: usize) -> (result: Result<(), RuntimeErrorKind>)
        requires
            old(self).wf(),
            old(self).has_operands(argc + 1),
        ensures
            final(self).wf(),
            final(self).frames == old(self).frames,
            final(self).builtin_called_from(old(self), argc as int, ix, result),
    {
        let builtins = self.builtins;
        let arity = match builtins.get_builtin_arity(ix) {
            Some(arity) => arity,
            None => {
                return Err(RuntimeErrorKind::UnknownBuiltin);
            },
        };
        let mut count = argc;
        match arity {
            Arity::Exact(_) => {},
            Arity::AtLeast(k) => {
                if argc < k {
                    return Err(RuntimeErrorKind::ArityMismatch { provided: argc, expected: arity });
                }
                let keep = self.stack.len() - argc + k;
                match self.pack(keep) {
                    Ok(_) => {},
                    Err(kind) => {
                        return Err(kind);
                    },
                }
                count = k + 1;
            },
        }
        let ghost mid = *self;
        let args = self.copy_arguments(count);
        let outcome = builtins.apply_builtin(ix, args, self);
        let result = self.finish_application(count, outcome);
        proof {
            match arity {
                Arity::Exact(_) => {},
                Arity::AtLeast(k) => {
                    assert(mid.packed_from(old(self), old(self).stack@.len() - argc + k));
                },
            }
        }
        result
    }

    /// The builtin method that a value names.
    pub open spec fn bound_method_of(&self, value: Value) -> Option<crate::data::objects::BoundMethod> {
        match value {
            Value::BoundMethod(h) => if self.gc.contains(h) {
                match self.gc.object(h) {
                    OwnedObjectItem::BoundMethod(bound) => Some(bound),
                    _ => None,
                }
            } else {
                None
            },
            _ => None,
        }
    }

    /// What calling a bound builtin method with `argc` arguments does: the
    /// method is applied to the object it was looked up on and the
    /// arguments, and what it returns takes the place of the callee and the
    /// arguments.
    pub open spec fn method_called_from(
        &self,
        before: &VM,
        argc: int,
        result: Result<(), RuntimeErrorKind>,
    ) -> bool {
        match before.bound_method_of(before.operand(argc)) {
            None => result == Err::<(), RuntimeErrorKind>(RuntimeErrorKind::RuntimeTypeError),
            Some(bound) => self.applied_from(
                before,
                argc,
                before.builtins.spec_apply_method(
                    bound.class_idx,
                    bound.method_idx,
                    bound.self_object,
                    before.arguments(argc),
                ),
                result,
            ),
        }
    }

    fn call_method(&mut self, argc: usize) -> (result: Result<(), RuntimeErrorKind>)
        requires
            old(self).wf(),
            old(self).has_operands(argc + 1),
        ensures
            final(self).wf(),
            final(self).frames == old(self).frames,
            final(self).method_called_from(old(self), argc as int, result),
    {
        let builtins = self.builtins;
        let height = self.stack.len();
        let bound = match self.stack[height - 1 - argc] {
            Value::BoundMethod(h) => match self.gc.get(h) {
                Some(OwnedObjectItem::BoundMethod(bound)) => *bound,
                _ => {
                    return Err(RuntimeErrorKind::RuntimeTypeError);
                },
            },
            _ => {
                return Err(RuntimeErrorKind::RuntimeTypeError);
            },
        };
        let args = self.copy_arguments(argc);
        let outcome = builtins.apply_method(
            bound.class_idx,
            bound.method_idx,
            bound.self_object,
            args,
            self,
        );
        self.finish_application(argc, outcome)
    }

    /// The struct descriptor that a value names.
    pub open spec fn descriptor_of(&self, value: Value) -> Option<
        crate::data::objects::StructDescriptor,
    > {
        match value {
            Value::StructDescriptor(h) => if self.gc.contains(h) {
                match self.gc.object(h) {
                    OwnedObjectItem::StructDescriptor(descriptor) => Some(descriptor),
                    _ => None,
                }
            } else {
                None
            },
            _ => None,
        }
    }

    /// Whether the object `h` of `self` is an instance of the descriptor
    /// `descriptor` with the fields `fields`: an instance of an enumeration
    /// variant where the descriptor belongs to an enumeration.
    pub open spec fn instance_at(
        &self,
        h: usize,
        descriptor: usize,
        of_enum: bool,
        fields: Seq<Value>,
    ) -> bool {
        &&& self.gc.contains(h)
        &&& if of_enum {
            &&& self.gc.object(h) is EnumInstance
            &&& self.gc.object(h)->EnumInstance_0.descriptor == descriptor
            &&& self.gc.object(h)->EnumInstance_0.fields@ == fields
        } else {
            &&& self.gc.object(h) is StructInstance
            &&& self.gc.object(h)->StructInstance_0.descriptor == descriptor
            &&& self.gc.object(h)->StructInstance_0.fields@ == fields
        }
    }

    /// What making an instance of the descriptor that `descriptor` names
    /// from the top `argc` values does, with `taken` values leaving the
    /// stack. It fails with an arity mismatch where the descriptor has
    /// another number of fields. Else a new instance holds the values as
    /// its fields, and the value that names it goes on the stack.
    pub open spec fn constructed_from(
        &self,
        before: &VM,
        descriptor: Value,
        argc: int,
        taken: int,
        result: Result<(), RuntimeErrorKind>,
    ) -> bool {
        match before.descriptor_of(descriptor) {
            None => result == Err::<(), RuntimeErrorKind>(RuntimeErrorKind::RuntimeTypeError),
            Some(found) => if argc != found.fields@.len() {
                result == Err::<(), RuntimeErrorKind>(
                    RuntimeErrorKind::ArityMismatch {
                        provided: argc as usize,
                        expected: Arity::Exact(found.fields@.len() as usize),
                    },
                )
            } else if taken == 0 && before.stack@.len() >= before.stack_limit {
                result == Err::<(), RuntimeErrorKind>(RuntimeErrorKind::StackOverflow)
            } else {
                &&& result is Ok
                &&& self.only_stack_and_heap_changed(before)
                &&& self.gc.grown_from(&before.gc)
                &&& self.instance_at(
                    before.gc.next_handle(),
                    descriptor.spec_handle()->Some_0,
                    found.enum_descriptor is Some,
                    before.arguments(argc),
                )
                &&& self.stack@ == before.stack@.subrange(0, before.stack@.len() - taken).push(
                    if found.enum_descriptor is Some {
                        Value::EnumInstance(before.gc.next_handle())
                    } else {
                        Value::StructInstance(before.gc.next_handle())
                    },
                )
            },
        }
    }

    pub fn construct(&mut self, descriptor: Value, argc: usize, taken: usize) -> (result: Result<
        (),
        RuntimeErrorKind,
    >)
        requires
            old(self).wf(),
            old(self).has_operands(taken as int),
            argc <= taken,
        ensures
            final(self).wf(),
            final(self).frames == old(self).frames,
            final(self).constructed_from(old(self), descriptor, argc as int, taken as int, result),
    {
        let (h, field_count, of_enum) = match descriptor {
            Value::StructDescriptor(h) => match self.gc.get(h) {
                Some(OwnedObjectItem::StructDescriptor(found)) => (
                    h,
                    found.fields.len(),
                    found.enum_descriptor.is_some(),
                ),
                _ => {
                    return Err(RuntimeErrorKind::RuntimeTypeError);
                },
            },
            _ => {
                return Err(RuntimeErrorKind::RuntimeTypeError);
            },
        };
        if argc != field_count {
            return Err(
                RuntimeErrorKind::ArityMismatch {
                    provided: argc,
                    expected: Arity::Exact(field_count),
                },
            );
        }
        let height = self.stack.len();
        if taken == 0 && height >= self.stack_limit {
            return Err(RuntimeErrorKind::StackOverflow);
        }
        let fields = self.stack.split_off(height - argc);
        self.stack.truncate(height - taken);
        let instance = Instance { descriptor: h, fields };
        let value = if of_enum {
            self.gc.store(OwnedObjectItem::EnumInstance(instance))
        } else {
            self.gc.store(OwnedObjectItem::StructInstance(instance))
        };
        self.stack.push(value);
        assert(self.stack@ =~= old(self).stack@.subrange(0, old(self).stack@.len() - taken).push(
            value,
        ));
        Ok(())
    }

    /// Whether `self` is `before` with a new partial application of
    /// `callee` with the argument slots `bound` in the place of the top
    /// `taken` values.
    pub open spec fn partial_made_from(
        &self,
        before: &VM,
        taken: int,
        callee: Value,
        bound: Seq<Option<Value>>,
    ) -> bool {
        &&& self.only_stack_and_heap_changed(before)
        &&& self.gc.grown_from(&before.gc)
        &&& self.partial_of(Value::Partial(before.gc.next_handle())) == Some((callee, bound))
        &&& self.stack@ == before.stack@.subrange(0, before.stack@.len() - taken).push(
            Value::Partial(before.gc.next_handle()),
        )
    }

    fn make_partial(&mut self, taken: usize, callee: Value, bound_args: Vec<Option<Value>>)
        requires
            old(self).wf(),
            old(self).has_operands(taken as int),
            taken >= 1,
        ensures
            final(self).wf(),
            final(self).frames == old(self).frames,
            final(self).partial_made_from(old(self), taken as int, callee, bound_args@),
    {
        let height = self.stack.len();
        self.stack.truncate(height - taken);
        let value = self.gc.store(OwnedObjectItem::Partial(PartialApp { callee, bound_args }));
        self.stack.push(value);
    }

    /// What `PartialCall(argc)` does. The callee lies below its `argc`
    /// arguments, of which the hole markers stand for arguments still to
    /// come. A new partial application takes their place. Applied to a
    /// partial application, the arguments go to its empty slots, and there
    /// must be one for each; else the callee's arity must admit `argc`
    /// arguments.
    pub open spec fn partially_applied_from(
        &self,
        before: &VM,
        argc: int,
        result: Result<(), RuntimeErrorKind>,
    ) -> bool {
        if !before.has_operands(argc + 1) {
            result == Err::<(), RuntimeErrorKind>(RuntimeErrorKind::InvalidBytecode)
        } else {
            let callee = before.operand(argc);
            let slots = before.arguments(argc).map_values(|v: Value| as_slot(v));
            match before.partial_of(callee) {
                Some((inner, bound)) => if argc != holes(bound) {
                    result == Err::<(), RuntimeErrorKind>(
                        RuntimeErrorKind::ArityMismatch {
                            provided: argc as usize,
                            expected: Arity::Exact(holes(bound) as usize),
                        },
                    )
                } else {
                    result is Ok && self.partial_made_from(
                        before,
                        argc + 1,
                        inner,
                        fill_slots(bound, slots),
                    )
                },
                None => match before.spec_arity_of(callee) {
                    None => result == Err::<(), RuntimeErrorKind>(
                        RuntimeErrorKind::RuntimeTypeError,
                    ),
                    Some(arity) => if !arity.spec_accepts(argc as nat) {
                        result == Err::<(), RuntimeErrorKind>(
                            RuntimeErrorKind::ArityMismatch {
                                provided: argc as usize,
                                expected: arity,
                            },
                        )
                    } else {
                        result is Ok && self.partial_made_from(before, argc + 1, callee, slots)
                    },
                },
            }
        }
    }

    /// Copies the top `argc` values of the stack.
    fn copy_arguments(&self, argc: usize) -> (args: Vec<Value>)
        requires
            argc <= self.stack@.len(),
        ensures
            args@ == self.arguments(argc as int),
    {
        let height = self.stack.len();
        let mut args: Vec<Value> = Vec::new();
        let mut i: usize = height - argc;
        while i < height
            invariant
                argc <= height,
                height - argc <= i <= height,
                height == self.stack@.len(),
                args@ == self.stack@.subrange(height - argc, i as int),
            decreases height - i,
        {
            args.push(self.stack[i]);
            i += 1;
            assert(args@ =~= self.stack@.subrange(height - argc, i as int));
        }
        args
    }

    pub fn partial_call(&mut self, argc: usize) -> (result: Result<(), RuntimeErrorKind>)
        requires
            old(self).wf(),
            argc < usize::MAX,
        ensures
            final(self).wf(),
            final(self).frames == old(self).frames,
            final(self).partially_applied_from(old(self), argc as int, result),
    {
        if !self.operands_available(argc + 1) {
            return Err(RuntimeErrorKind::InvalidBytecode);
        }
        let height = self.stack.len();
        let callee = self.stack[height - 1 - argc];
        let args = self.copy_arguments(argc);
        let slots = to_slots(&args, true);
        let existing = match callee {
            Value::Partial(h) => match self.gc.get(h) {
                Some(OwnedObjectItem::Partial(partial)) => {
                    let empty = count_holes(&partial.bound_args);
                    if argc != empty {
                        return Err(
                            RuntimeErrorKind::ArityMismatch {
                                provided: argc,
                                expected: Arity::Exact(empty),
                            },
                        );
                    }
                    Some((partial.callee, fill_in(&partial.bound_args, &slots)))
                },
                _ => None,
            },
            _ => None,
        };
        match existing {
            Some((inner, bound)) => {
                self.make_partial(argc + 1, inner, bound);
                Ok(())
            },
            None => match self.arity_of(callee) {
                None => Err(RuntimeErrorKind::RuntimeTypeError),
                Some(arity) => {
                    if !arity.accepts(argc) {
                        return Err(
                            RuntimeErrorKind::ArityMismatch { provided: argc, expected: arity },
                        );
                    }
                    self.make_partial(argc + 1, callee, slots);
                    Ok(())
                },
            },
        }
    }

    /// Whether `self` is `before` with the callee and its `argc` arguments
    /// replaced by `callee` and the arguments `values`.
    pub open spec fn unpacked_from(
        &self,
        before: &VM,
        argc: int,
        callee: Value,
        values: Seq<Value>,
    ) -> bool {
        &&& self.only_stack_changed(before)
        &&& self.stack@ == before.stack@.subrange(0, before.stack@.len() - argc - 1).push(callee)
            + values
    }

    /// What calling a partial application with `argc` arguments does. The
    /// arguments go to the empty slots from left to right. More arguments
    /// than empty slots are an arity mismatch. Where slots stay empty, a
    /// new partial application with the slots filled so far takes the place
    /// of the callee and the arguments. Where none stays empty, the
    /// underlying callee is called with the arguments that the slots hold.
    pub open spec fn partial_called_from(
        &self,
        before: &VM,
        argc: int,
        result: Result<(), RuntimeErrorKind>,
    ) -> bool {
        match before.partial_of(before.operand(argc)) {
            None => result == Err::<(), RuntimeErrorKind>(RuntimeErrorKind::RuntimeTypeError),
            Some((callee, bound)) => if argc > holes(bound) {
                result == Err::<(), RuntimeErrorKind>(
                    RuntimeErrorKind::ArityMismatch {
                        provided: argc as usize,
                        expected: Arity::Exact(holes(bound) as usize),
                    },
                )
            } else if argc < holes(bound) {
                result is Ok && self.partial_made_from(
                    before,
                    argc + 1,
                    callee,
                    fill(bound, before.arguments(argc)),
                )
            } else if callee is Partial {
                result == Err::<(), RuntimeErrorKind>(RuntimeErrorKind::InvalidBytecode)
            } else if before.stack@.len() - argc + bound.len() > before.stack_limit {
                result == Err::<(), RuntimeErrorKind>(RuntimeErrorKind::StackOverflow)
            } else {
                exists|mid: VM| #[trigger]
                    mid.unpacked_from(
                        before,
                        argc,
                        callee,
                        slot_values(fill(bound, before.arguments(argc))),
                    ) && self.directly_called_from(&mid, bound.len() as int, result)
            },
        }
    }

    /// What calling a value that is no partial application does; see
    /// [`VM::called_from`].
    pub open spec fn directly_called_from(
        &self,
        before: &VM,
        argc: int,
        result: Result<(), RuntimeErrorKind>,
    ) -> bool {
        match before.operand(argc) {
            Value::Function(_) => self.function_called_from(before, argc, result),
            Value::Builtin(ix) => self.builtin_called_from(before, argc, ix, result),
            Value::BoundMethod(_) => self.method_called_from(before, argc, result),
            Value::StructDescriptor(_) => self.constructed_from(
                before,
                before.operand(argc),
                argc,
                argc + 1,
                result,
            ),
            _ => result == Err::<(), RuntimeErrorKind>(RuntimeErrorKind::RuntimeTypeError),
        }
    }

    /// What `Call(argc)` does. The callee lies below its `argc` arguments.
    /// A function gets a new frame, a partial application gets its empty
    /// slots filled, a builtin and a bound method are applied, and a struct
    /// descriptor makes an instance. Any other callee is a type error.
    pub open spec fn called_from(
        &self,
        before: &VM,
        argc: int,
        result: Result<(), RuntimeErrorKind>,
    ) -> bool {
        if !before.has_operands(argc + 1) {
            result == Err::<(), RuntimeErrorKind>(RuntimeErrorKind::InvalidBytecode)
        } else if before.operand(argc) is Partial {
            self.partial_called_from(before, argc, result)
        } else {
            self.directly_called_from(before, argc, result)
        }
    }

    fn call_directly(&mut self, argc: usize) -> (result: Result<(), RuntimeErrorKind>)
        requires
            old(self).wf(),
            old(self).has_operands(argc + 1),
        ensures
            final(self).wf(),
            final(self).directly_called_from(old(self), argc as int, result),
            result is Ok ==> final(self).frames == old(self).frames || (final(self).frames@.len()
                == old(self).frames@.len() + 1 && final(self).frames@.drop_last() == old(
                self,
            ).frames@ && final(self).frames@.last().ip == 0),
    {
        let height = self.stack.len();
        let callee = self.stack[height - 1 - argc];
        match callee {
            Value::Function(_) => self.call_function(argc),
            Value::Builtin(ix) => self.call_builtin(argc, ix),
            Value::BoundMethod(_) => self.call_method(argc),
            Value::StructDescriptor(_) => self.construct(callee, argc, argc + 1),
            _ => Err(RuntimeErrorKind::RuntimeTypeError),
        }
    }

    pub fn call(&mut self, argc: usize) -> (result: Result<(), RuntimeErrorKind>)
        requires
            old(self).wf(),
            argc < usize::MAX,
        ensures
            final(self).wf(),
            final(self).called_from(old(self), argc as int, result),
            result is Ok ==> final(self).frames == old(self).frames || (final(self).frames@.len()
                == old(self).frames@.len() + 1 && final(self).frames@.drop_last() == old(
                self,
            ).frames@ && final(self).frames@.last().ip == 0),
    {
        if !self.operands_available(argc + 1) {
            return Err(RuntimeErrorKind::InvalidBytecode);
        }
        let height = self.stack.len();
        let callee = self.stack[height - 1 - argc];
        let (inner, bound) = match callee {
            Value::Partial(h) => match self.gc.get(h) {
                Some(OwnedObjectItem::Partial(partial)) => {
                    let empty = count_holes(&partial.bound_args);
                    if argc > empty {
                        return Err(
                            RuntimeErrorKind::ArityMismatch {
                                provided: argc,
                                expected: Arity::Exact(empty),
                            },
                        );
                    }
                    let args = self.copy_arguments(argc);
                    let slots = to_slots(&args, false);
                    (partial.callee, fill_in(&partial.bound_args, &slots))
                },
                _ => {
                    return Err(RuntimeErrorKind::RuntimeTypeError);
                },
            },
            _ => {
                return self.call_directly(argc);
            },
        };
        let ghost before_bound = old(self).partial_of(callee)->Some_0.1;
        proof {
            crate::execution::partial::lemma_fill_holes(before_bound, old(self).arguments(argc as int));
        }
        match values_of(&bound) {
            None => {
                self.make_partial(argc + 1, inner, bound);
                Ok(())
            },
            Some(values) => {
                match inner {
                    Value::Partial(_) => {
                        return Err(RuntimeErrorKind::InvalidBytecode);
                    },
                    _ => {},
                }
                if values.len() > self.stack_limit || height - argc > self.stack_limit
                    - values.len() {
                    return Err(RuntimeErrorKind::StackOverflow);
                }
                self.stack.truncate(height - argc - 1);
                self.stack.push(inner);
                crate::data::objects::append_values(&mut self.stack, &values);
                let ghost mid = *self;
                proof {
                    assert(mid.unpacked_from(
                        old(self),
                        argc as int,
                        inner,
                        slot_values(fill(before_bound, old(self).arguments(argc as int))),
                    ));
                    assert(mid.operand(values@.len() as int) == inner);
                }
                self.call_directly(values.len())
            },
        }
    }

    /// What `Return` does: the current frame ends, and the top value takes
    /// the place of the callee and of everything above it.
    pub open spec fn returned_from(&self, before: &VM, result: Result<(), RuntimeErrorKind>) -> bool {
        if !before.has_operands(1) {
            result == Err::<(), RuntimeErrorKind>(RuntimeErrorKind::InvalidBytecode)
        } else {
            &&& result is Ok
            &&& self.gc == before.gc
            &&& self.builtins == before.builtins
            &&& self.globals == before.globals
            &&& self.output == before.output
            &&& self.stack_limit == before.stack_limit
            &&& self.frames@ == before.frames@.drop_last()
            &&& self.stack@ == before.stack@.subrange(0, before.frames@.last().base as int).push(
                before.stack@.last(),
            )
        }
    }

    pub fn return_value(&mut self) -> (result: Result<(), RuntimeErrorKind>)
        requires
            old(self).wf(),
            old(self).frames@.len() > 0,
        ensures
            final(self).wf(),
            final(self).returned_from(old(self), result),
    {
        if !self.operands_available(1) {
            return Err(RuntimeErrorKind::InvalidBytecode);
        }
        let height = self.stack.len();
        let value = self.stack[height - 1];
        let frame = self.frames.pop().unwrap();
        self.stack.truncate(frame.base);
        self.stack.push(value);
        proof {
            assert forall|i: int| 0 <= i < self.frames@.len() implies (
            #[trigger] self.frames@[i]).base < self.stack@.len() by {
                assert(old(self).frames@[i].base < old(self).frames@[old(self).frames@.len() - 1].base);
            }
        }
        Ok(())
    }

    /// The function body that the constant at index `ix` names.
    pub open spec fn prototype(&self, ix: u16) -> Option<usize> {
        match self.current_chunk() {
            Some(chunk) => if ix < chunk.constants@.len() {
                match chunk.constants@[ix as int] {
                    Value::Function(h) => if self.gc.contains(h) && self.gc.object(h) is Function {
                        Some(h)
                    } else {
                        None
                    },
                    _ => None,
                }
            } else {
                None
            },
            None => None,
        }
    }

    /// The function body and the captured bindings of the closure that a
    /// value names.
    pub open spec fn closure_of(&self, value: Value) -> Option<(usize, Seq<Value>)> {
        match value {
            Value::Function(h) => if self.gc.contains(h) {
                match self.gc.object(h) {
                    OwnedObjectItem::Closure(closure) => Some((closure.function, closure.upvalues@)),
                    _ => None,
                }
            } else {
                None
            },
            _ => None,
        }
    }

    /// What `MakeClosure(ix, count)` does: a new closure of the function
    /// body that the constant at `ix` names captures the top `count`
    /// values, lowest first, and the value that names it takes their place.
    pub open spec fn closure_made_from(
        &self,
        before: &VM,
        ix: u16,
        count: u16,
        result: Result<(), RuntimeErrorKind>,
    ) -> bool {
        match before.prototype(ix) {
            None => result == Err::<(), RuntimeErrorKind>(RuntimeErrorKind::InvalidBytecode),
            Some(body) => if !before.has_operands(count as int) {
                result == Err::<(), RuntimeErrorKind>(RuntimeErrorKind::InvalidBytecode)
            } else if count == 0 && before.stack@.len() >= before.stack_limit {
                result == Err::<(), RuntimeErrorKind>(RuntimeErrorKind::StackOverflow)
            } else {
                &&& result is Ok
                &&& self.only_stack_and_heap_changed(before)
                &&& self.gc.grown_from(&before.gc)
                &&& self.closure_of(Value::Function(before.gc.next_handle())) == Some(
                    (body, before.arguments(count as int)),
                )
                &&& self.stack@ == before.stack@.subrange(0, before.stack@.len() - count).push(
                    Value::Function(before.gc.next_handle()),
                )
            },
        }
    }

    pub fn make_closure(&mut self, ix: u16, count: u16) -> (result: Result<(), RuntimeErrorKind>)
        requires
            old(self).wf(),
        ensures
            final(self).wf(),
            final(self).frames == old(self).frames,
            final(self).closure_made_from(old(self), ix, count, result),
    {
        let body = match self.constant(ix) {
            Some(Value::Function(h)) => match self.gc.get(h) {
                Some(OwnedObjectItem::Function(_)) => h,
                _ => {
                    return Err(RuntimeErrorKind::InvalidBytecode);
                },
            },
            _ => {
                return Err(RuntimeErrorKind::InvalidBytecode);
            },
        };
        if !self.operands_available(count as usize) {
            return Err(RuntimeErrorKind::InvalidBytecode);
        }
        let height = self.stack.len();
        if count == 0 && height >= self.stack_limit {
            return Err(RuntimeErrorKind::StackOverflow);
        }
        let upvalues = self.stack.split_off(height - count as usize);
        let value = self.gc.store(OwnedObjectItem::Closure(Closure { function: body, upvalues }));
        self.stack.push(value);
        Ok(())
    }

    /// What `NewStruct(ix, count)` does: an instance of the descriptor that
    /// the constant at `ix` names takes the place of the top `count`
    /// values, which become its fields.
    pub open spec fn struct_made_from(
        &self,
        before: &VM,
        ix: u16,
        count: u16,
        result: Result<(), RuntimeErrorKind>,
    ) -> bool {
        match before.current_chunk() {
            Some(chunk) => if ix < chunk.constants@.len() && before.has_operands(count as int) {
                self.constructed_from(
                    before,
                    chunk.constants@[ix as int],
                    count as int,
                    count as int,
                    result,
                )
            } else {
                result == Err::<(), RuntimeErrorKind>(RuntimeErrorKind::InvalidBytecode)
            },
            None => result == Err::<(), RuntimeErrorKind>(RuntimeErrorKind::InvalidBytecode),
        }
    }

    pub fn new_struct(&mut self, ix: u16, count: u16) -> (result: Result<(), RuntimeErrorKind>)
        requires
            old(self).wf(),
        ensures
            final(self).wf(),
            final(self).frames == old(self).frames,
            final(self).struct_made_from(old(self), ix, count, result),
    {
        let descriptor = match self.constant(ix) {
            Some(value) => value,
            None => {
                return Err(RuntimeErrorKind::InvalidBytecode);
            },
        };
        if !self.operands_available(count as usize) {
            return Err(RuntimeErrorKind::InvalidBytecode);
        }
        self.construct(descriptor, count as usize, count as usize)
    }
}

} // verus!
