use vstd::prelude::*;
use crate::data::objects::{BoundMethod, Instance, OwnedObjectItem, PartialApp, Value};

use crate::execution::builtins::{lemma_position, position};
use crate::execution::vm::{RuntimeErrorKind, VM};

verus! {

/// What a name stands for on a value.
#[derive(Clone, Copy, Debug, PartialEq, Eq, Structural)]
pub enum Property {
    /// The field at this index of the instance.
    Field(usize),
    /// A method of the instance's descriptor, or of the enumeration that
    /// the descriptor belongs to.
    Method(Value),
    /// A variant of the enumeration.
    Variant(Value),
    /// The native method at this class and method index of the registry.
    Native(usize, usize),
}

/// The texts of `names`, in order.
pub open spec fn texts(names: Seq<String>) -> Seq<Seq<char>> {
    Seq::new(names.len(), |i: int| names[i]@)
}

/// The names of `entries`, in order.
pub open spec fn entry_names(entries: Seq<(String, Value)>) -> Seq<Seq<char>> {
    Seq::new(entries.len(), |i: int| entries[i].0@)
}

/// The value that `entries` holds under `name`: that of the first entry
/// with the name.
pub open spec fn entry_named(entries: Seq<(String, Value)>, name: Seq<char>) -> Option<Value> {
    match position(entry_names(entries), name) {
        Some(i) => Some(entries[i].1),
        None => None,
    }
}

/// Finds the first of `names` that is `name`.
pub fn find_name(names: &Vec<String>, name: &String) -> (found: Option<usize>)
    ensures
        found is Some == position(texts(names@), name@) is Some,
        found is Some ==> found->Some_0 as int == position(texts(names@), name@)->Some_0
            && found->Some_0 < names@.len(),
{
    let mut i: usize = 0;
    while i < names.len()
        invariant
            i <= names.len(),
            forall|j: int| 0 <= j < i ==> #[trigger] texts(names@)[j] != name@,
        decreases names.len() - i,
    {
        if names[i] == *name {
            proof {
                lemma_position(texts(names@), name@);
                assert(texts(names@)[i as int] == name@);
                if position(texts(names@), name@) is Some {
                    let k = position(texts(names@), name@)->Some_0;
                    if k < i {
                        assert(texts(names@)[k] != name@);
                    }
                }
            }
            return Some(i);
        }
        assert(texts(names@)[i as int] != name@);
        i += 1;
    }
    proof {
        lemma_position(texts(names@), name@);
        if position(texts(names@), name@) is Some {
            let k = position(texts(names@), name@)->Some_0;
            assert(texts(names@)[k] != name@);
        }
    }
    None
}

/// Finds the value of the first of `entries` that has the name `name`.
pub fn find_entry(entries: &Vec<(String, Value)>, name: &String) -> (found: Option<Value>)
    ensures
        found == entry_named(entries@, name@),
{
    let mut i: usize = 0;
    while i < entries.len()
        invariant
            i <= entries.len(),
            forall|j: int| 0 <= j < i ==> #[trigger] entry_names(entries@)[j] != name@,
        decreases entries.len() - i,
    {
        if entries[i].0 == *name {
            proof {
                lemma_position(entry_names(entries@), name@);
                assert(entry_names(entries@)[i as int] == name@);
                if position(entry_names(entries@), name@) is Some {
                    let k = position(entry_names(entries@), name@)->Some_0;
                    if k < i {
                        assert(entry_names(entries@)[k] != name@);
                    }
                }
            }
            return Some(entries[i].1);
        }
        assert(entry_names(entries@)[i as int] != name@);
        i += 1;
    }
    proof {
        lemma_position(entry_names(entries@), name@);
        if position(entry_names(entries@), name@) is Some {
            let k = position(entry_names(entries@), name@)->Some_0;
            assert(entry_names(entries@)[k] != name@);
        }
    }
    None
}

impl<'a> VM<'a> {
    /// The instance that a value names.
    pub open spec fn instance_of(&self, value: Value) -> Option<Instance> {
        match value {
            Value::StructInstance(h) => if self.gc.contains(h) {
                match self.gc.object(h) {
                    OwnedObjectItem::StructInstance(instance) => Some(instance),
                    _ => None,
                }
            } else {
                None
            },
            Value::EnumInstance(h) => if self.gc.contains(h) {
                match self.gc.object(h) {
                    OwnedObjectItem::EnumInstance(instance) => Some(instance),
                    _ => None,
                }
            } else {
                None
            },
            _ => None,
        }
    }

    /// The method `name` of the enumeration that a descriptor belongs to.
    pub open spec fn enum_method(&self, parent: Option<usize>, name: Seq<char>) -> Option<Value> {
        match parent {
            Some(e) => if self.gc.contains(e) {
                match self.gc.object(e) {
                    OwnedObjectItem::EnumDescriptor(descriptor) => entry_named(
                        descriptor.methods@,
                        name,
                    ),
                    _ => None,
                }
            } else {
                None
            },
            None => None,
        }
    }

    /// What `name` stands for on `target`. On an instance it is a field of
    /// that name, else a method of its descriptor, else a method of the
    /// enumeration that the descriptor belongs to. On an enumeration it is
    /// a variant. On any value it is, failing those, a native method of the
    /// value's type.
    pub open spec fn property_of(&self, target: Value, name: Seq<char>) -> Option<Property> {
        match self.own_property_of(target, name) {
            Some(property) => Some(property),
            None => match self.builtins.spec_find_method(target.spec_type_string(), name) {
                Some((class_idx, method_idx)) => Some(Property::Native(class_idx, method_idx)),
                None => None,
            },
        }
    }

    /// What `name` stands for on `target` before the native methods are
    /// looked at; see [`VM::property_of`].
    pub open spec fn own_property_of(&self, target: Value, name: Seq<char>) -> Option<Property> {
        match self.instance_of(target) {
            Some(instance) => match self.descriptor_of(Value::StructDescriptor(instance.descriptor)) {
                Some(descriptor) => match position(texts(descriptor.fields@), name) {
                    Some(i) => if i < instance.fields@.len() {
                        Some(Property::Field(i as usize))
                    } else {
                        None
                    },
                    None => match entry_named(descriptor.methods@, name) {
                        Some(method) => Some(Property::Method(method)),
                        None => match self.enum_method(descriptor.enum_descriptor, name) {
                            Some(method) => Some(Property::Method(method)),
                            None => None,
                        },
                    },
                },
                None => None,
            },
            None => match target {
                Value::EnumDescriptor(h) => if self.gc.contains(h) {
                    match self.gc.object(h) {
                        OwnedObjectItem::EnumDescriptor(descriptor) => match entry_named(
                            descriptor.variants@,
                            name,
                        ) {
                            Some(variant) => Some(Property::Variant(variant)),
                            None => None,
                        },
                        _ => None,
                    }
                } else {
                    None
                },
                _ => None,
            },
        }
    }

    /// A name stands for a field on an instance only, and only for a field
    /// that the instance has.
    pub proof fn lemma_field_property(&self, target: Value, name: Seq<char>)
        ensures
            self.property_of(target, name) matches Some(Property::Field(i)) ==> self.instance_of(
                target,
            ) is Some && i < self.instance_of(target)->Some_0.fields@.len() && (
            target is StructInstance || target is EnumInstance),
    {
        match self.instance_of(target) {
            Some(instance) => {
                match self.descriptor_of(Value::StructDescriptor(instance.descriptor)) {
                    Some(descriptor) => {
                        lemma_position(texts(descriptor.fields@), name);
                        assert(instance.fields.len() == instance.fields@.len());
                    },
                    None => {},
                }
            },
            None => {},
        }
    }

    pub fn find_property(&self, target: Value, name: &String) -> (found: Option<Property>)
        requires
            self.wf(),
        ensures
            found == self.property_of(target, name@),
    {
        let instance = match target {
            Value::StructInstance(h) => match self.gc.get(h) {
                Some(OwnedObjectItem::StructInstance(instance)) => Some(instance),
                _ => None,
            },
            Value::EnumInstance(h) => match self.gc.get(h) {
                Some(OwnedObjectItem::EnumInstance(instance)) => Some(instance),
                _ => None,
            },
            _ => None,
        };
        let ghost expected = self.own_property_of(target, name@);
        let own = match instance {
            Some(instance) => match self.gc.get(instance.descriptor) {
                Some(OwnedObjectItem::StructDescriptor(descriptor)) => match find_name(
                    &descriptor.fields,
                    name,
                ) {
                    Some(i) => if i < instance.fields.len() {
                        Some(Property::Field(i))
                    } else {
                        None
                    },
                    None => match find_entry(&descriptor.methods, name) {
                        Some(method) => Some(Property::Method(method)),
                        None => match descriptor.enum_descriptor {
                            Some(e) => match self.gc.get(e) {
                                Some(OwnedObjectItem::EnumDescriptor(parent)) => match find_entry(
                                    &parent.methods,
                                    name,
                                ) {
                                    Some(method) => Some(Property::Method(method)),
                                    None => None,
                                },
                                _ => None,
                            },
                            None => None,
                        },
                    },
                },
                _ => None,
            },
            None => match target {
                Value::EnumDescriptor(h) => match self.gc.get(h) {
                    Some(OwnedObjectItem::EnumDescriptor(descriptor)) => match find_entry(
                        &descriptor.variants,
                        name,
                    ) {
                        Some(variant) => Some(Property::Variant(variant)),
                        None => None,
                    },
                    _ => None,
                },
                _ => None,
            },
        };
        match own {
            Some(property) => Some(property),
            None => match self.builtins.find_method(target.type_string(), name.as_str()) {
                Some((class_idx, method_idx)) => Some(Property::Native(class_idx, method_idx)),
                None => None,
            },
        }
    }

    /// The argument slots of a method bound to `target`: the first holds
    /// the target, and `count - 1` more are empty.
    pub open spec fn method_slots(target: Value, count: int) -> Seq<Option<Value>> {
        Seq::new(
            count as nat,
            |i: int|
                if i == 0 {
                    Some(target)
                } else {
                    None
                },
        )
    }

    /// What `GetProperty(ix)` does with the top value as target and the
    /// string constant at `ix` as name. A field's value or a variant takes
    /// the target's place. A method is bound to the target: a new partial
    /// application of it, with the target in the first argument slot, takes
    /// the target's place, and so does a new bound method for a native
    /// method. A name that stands for nothing is an unknown property.
    pub open spec fn property_read_from(
        &self,
        before: &VM,
        ix: u16,
        result: Result<(), RuntimeErrorKind>,
    ) -> bool {
        if !before.has_operands(1) || before.constant_text(ix) is None {
            result == Err::<(), RuntimeErrorKind>(RuntimeErrorKind::InvalidBytecode)
        } else {
            let target = before.operand(0);
            match before.property_of(target, before.constant_text(ix)->Some_0) {
                None => result == Err::<(), RuntimeErrorKind>(RuntimeErrorKind::UnknownProperty),
                Some(Property::Field(i)) => result is Ok && self.only_stack_changed(before)
                    && self.stack@ == before.stack@.drop_last().push(
                    before.instance_of(target)->Some_0.fields@[i as int],
                ),
                Some(Property::Variant(variant)) => result is Ok && self.only_stack_changed(before)
                    && self.stack@ == before.stack@.drop_last().push(variant),
                Some(Property::Method(method)) => match before.spec_arity_of(method) {
                    None => result == Err::<(), RuntimeErrorKind>(
                        RuntimeErrorKind::RuntimeTypeError,
                    ),
                    Some(arity) => if arity.spec_count() == 0 {
                        result == Err::<(), RuntimeErrorKind>(
                            RuntimeErrorKind::ArityMismatch { provided: 1, expected: arity },
                        )
                    } else {
                        result is Ok && self.partial_made_from(
                            before,
                            1,
                            method,
                            Self::method_slots(target, arity.spec_count() as int),
                        )
                    },
                },
                Some(Property::Native(class_idx, method_idx)) => {
                    &&& result is Ok
                    &&& self.only_stack_and_heap_changed(before)
                    &&& self.gc.grown_from(&before.gc)
                    &&& self.bound_method_of(Value::BoundMethod(before.gc.next_handle())) == Some(
                        BoundMethod { self_object: target, class_idx, method_idx },
                    )
                    &&& self.stack@ == before.stack@.drop_last().push(
                        Value::BoundMethod(before.gc.next_handle()),
                    )
                },
            }
        }
    }

    /// The name that the string constant at `ix` holds.
    pub fn constant_name(&self, ix: u16) -> (name: Option<String>)
        ensures
            name is Some == self.constant_text(ix) is Some,
            name is Some ==> name->Some_0@ == self.constant_text(ix)->Some_0,
    {
        match self.constant(ix) {
            Some(constant) => match self.gc.text(constant) {
                Some(text) => Some(text.clone()),
                None => None,
            },
            None => None,
        }
    }

    pub fn get_property(&mut self, ix: u16) -> (result: Result<(), RuntimeErrorKind>)
        requires
            old(self).wf(),
        ensures
            final(self).wf(),
            final(self).frames == old(self).frames,
            final(self).property_read_from(old(self), ix, result),
    {
        if !self.operands_available(1) {
            return Err(RuntimeErrorKind::InvalidBytecode);
        }
        let name = match self.constant_name(ix) {
            Some(name) => name,
            None => {
                return Err(RuntimeErrorKind::InvalidBytecode);
            },
        };
        let height = self.stack.len();
        let target = self.stack[height - 1];
        proof {
            self.lemma_field_property(target, name@);
        }
        match self.find_property(target, &name) {
            None => Err(RuntimeErrorKind::UnknownProperty),
            Some(Property::Field(i)) => {
                let value = match target {
                    Value::StructInstance(h) => match self.gc.get(h) {
                        Some(OwnedObjectItem::StructInstance(instance)) => instance.fields[i],
                        _ => Value::Nothing,
                    },
                    Value::EnumInstance(h) => match self.gc.get(h) {
                        Some(OwnedObjectItem::EnumInstance(instance)) => instance.fields[i],
                        _ => Value::Nothing,
                    },
                    _ => Value::Nothing,
                };
                self.stack.set(height - 1, value);
                assert(self.stack@ =~= old(self).stack@.drop_last().push(value));
                Ok(())
            },
            Some(Property::Variant(variant)) => {
                self.stack.set(height - 1, variant);
                assert(self.stack@ =~= old(self).stack@.drop_last().push(variant));
                Ok(())
            },
            Some(Property::Method(method)) => match self.arity_of(method) {
                None => Err(RuntimeErrorKind::RuntimeTypeError),
                Some(arity) => {
                    let count = arity.count();
                    if count == 0 {
                        return Err(RuntimeErrorKind::ArityMismatch { provided: 1, expected: arity });
                    }
                    let mut slots: Vec<Option<Value>> = Vec::new();
                    slots.push(Some(target));
                    while slots.len() < count
                        invariant
                            1 <= slots@.len() <= count,
                            slots@ == Self::method_slots(target, slots@.len() as int),
                        decreases count - slots@.len(),
                    {
                        slots.push(None);
                        assert(slots@ =~= Self::method_slots(target, slots@.len() as int));
                    }
                    self.stack.truncate(height - 1);
                    let value = self.gc.store(
                        OwnedObjectItem::Partial(PartialApp { callee: method, bound_args: slots }),
                    );
                    self.stack.push(value);
                    Ok(())
                },
            },
            Some(Property::Native(class_idx, method_idx)) => {
                let builtins = self.builtins;
                match builtins.bind_method(target, name.as_str(), self) {
                    Some(value) => {
                        self.stack.set(height - 1, value);
                        assert(self.stack@ =~= old(self).stack@.drop_last().push(value));
                        Ok(())
                    },
                    None => Err(RuntimeErrorKind::UnknownProperty),
                }
            },
        }
    }

    /// What `HasProperty(ix)` does: one takes the place of the top value
    /// where the string constant at `ix` names a property of it, zero where
    /// it does not.
    pub open spec fn property_tested_from(
        &self,
        before: &VM,
        ix: u16,
        result: Result<(), RuntimeErrorKind>,
    ) -> bool {
        if !before.has_operands(1) || before.constant_text(ix) is None {
            result == Err::<(), RuntimeErrorKind>(RuntimeErrorKind::InvalidBytecode)
        } else {
            result is Ok && self.only_stack_changed(before) && self.stack@
                == before.stack@.drop_last().push(
                Value::spec_from_bool(
                    before.property_of(before.operand(0), before.constant_text(ix)->Some_0) is Some,
                ),
            )
        }
    }

    pub fn has_property(&mut self, ix: u16) -> (result: Result<(), RuntimeErrorKind>)
        requires
            old(self).wf(),
        ensures
            final(self).wf(),
            final(self).frames == old(self).frames,
            final(self).property_tested_from(old(self), ix, result),
    {
        if !self.operands_available(1) {
            return Err(RuntimeErrorKind::InvalidBytecode);
        }
        let name = match self.constant_name(ix) {
            Some(name) => name,
            None => {
                return Err(RuntimeErrorKind::InvalidBytecode);
            },
        };
        let height = self.stack.len();
        let target = self.stack[height - 1];
        let value = Value::from_bool(self.find_property(target, &name).is_some());
        self.stack.set(height - 1, value);
        assert(self.stack@ =~= old(self).stack@.drop_last().push(value));
        Ok(())
    }

    /// What `SetProperty(ix)` does: the top value goes to the field that
    /// the string constant at `ix` names of the instance below it, and both
    /// leave the stack. A name that is no field of the target is an unknown
    /// property.
    pub open spec fn property_written_from(
        &self,
        before: &VM,
        ix: u16,
        result: Result<(), RuntimeErrorKind>,
    ) -> bool {
        if !before.has_operands(2) || before.constant_text(ix) is None {
            result == Err::<(), RuntimeErrorKind>(RuntimeErrorKind::InvalidBytecode)
        } else {
            let target = before.operand(1);
            match before.property_of(target, before.constant_text(ix)->Some_0) {
                Some(Property::Field(i)) => {
                    &&& result is Ok
                    &&& self.only_stack_and_heap_changed(before)
                    &&& self.stack@ == before.stack@.subrange(0, before.stack@.len() - 2)
                    &&& self.gc.wf()
                    &&& forall|h: usize| self.gc.contains(h) == before.gc.contains(h)
                    &&& forall|h: usize|
                        h != target.spec_handle()->Some_0 && before.gc.contains(h)
                            ==> self.gc.object(h) == before.gc.object(h)
                    &&& self.instance_of(target) is Some
                    &&& self.instance_of(target)->Some_0.descriptor == before.instance_of(
                        target,
                    )->Some_0.descriptor
                    &&& self.instance_of(target)->Some_0.fields@ == before.instance_of(
                        target,
                    )->Some_0.fields@.update(i as int, before.operand(0))
                },
                _ => result == Err::<(), RuntimeErrorKind>(RuntimeErrorKind::UnknownProperty),
            }
        }
    }

    pub fn set_property(&mut self, ix: u16) -> (result: Result<(), RuntimeErrorKind>)
        requires
            old(self).wf(),
        ensures
            final(self).wf(),
            final(self).frames == old(self).frames,
            final(self).property_written_from(old(self), ix, result),
    {
        if !self.operands_available(2) {
            return Err(RuntimeErrorKind::InvalidBytecode);
        }
        let name = match self.constant_name(ix) {
            Some(name) => name,
            None => {
                return Err(RuntimeErrorKind::InvalidBytecode);
            },
        };
        let height = self.stack.len();
        let target = self.stack[height - 2];
        let value = self.stack[height - 1];
        proof {
            self.lemma_field_property(target, name@);
        }
        let i = match self.find_property(target, &name) {
            Some(Property::Field(i)) => i,
            _ => {
                return Err(RuntimeErrorKind::UnknownProperty);
            },
        };
        let h = match target {
            Value::StructInstance(h) => h,
            Value::EnumInstance(h) => h,
            _ => {
                return Err(RuntimeErrorKind::UnknownProperty);
            },
        };
        let former = self.gc.replace(h, OwnedObjectItem::Cell(Value::Nothing));
        let updated = match former {
            Some(OwnedObjectItem::StructInstance(mut instance)) => {
                instance.fields.set(i, value);
                OwnedObjectItem::StructInstance(instance)
            },
            Some(OwnedObjectItem::EnumInstance(mut instance)) => {
                instance.fields.set(i, value);
                OwnedObjectItem::EnumInstance(instance)
            },
            Some(other) => other,
            None => OwnedObjectItem::Cell(Value::Nothing),
        };
        self.gc.replace(h, updated);
        self.stack.truncate(height - 2);
        Ok(())
    }

    /// The methods of the descriptor that a value names: those of a struct
    /// descriptor or of an enumeration.
    pub open spec fn methods_of(&self, target: Value) -> Option<Seq<(String, Value)>> {
        match target {
            Value::StructDescriptor(h) => if self.gc.contains(h) {
                match self.gc.object(h) {
                    OwnedObjectItem::StructDescriptor(descriptor) => Some(descriptor.methods@),
                    _ => None,
                }
            } else {
                None
            },
            Value::EnumDescriptor(h) => if self.gc.contains(h) {
                match self.gc.object(h) {
                    OwnedObjectItem::EnumDescriptor(descriptor) => Some(descriptor.methods@),
                    _ => None,
                }
            } else {
                None
            },
            _ => None,
        }
    }

    /// What `SetMethod(ix)` does: the top value becomes the method that the
    /// string constant at `ix` names of the descriptor below it, in the
    /// place of a method of that name or after the other methods, and
    /// leaves the stack. Nothing else about the descriptor changes. It is a
    /// type error where the value below the top names no descriptor.
    pub open spec fn method_set_from(
        &self,
        before: &VM,
        ix: u16,
        result: Result<(), RuntimeErrorKind>,
    ) -> bool {
        if !before.has_operands(2) || before.constant_text(ix) is None {
            result == Err::<(), RuntimeErrorKind>(RuntimeErrorKind::InvalidBytecode)
        } else {
            let target = before.operand(1);
            let name = before.constant_text(ix)->Some_0;
            match before.methods_of(target) {
                None => result == Err::<(), RuntimeErrorKind>(RuntimeErrorKind::RuntimeTypeError),
                Some(methods) => {
                    &&& result is Ok
                    &&& self.only_stack_and_heap_changed(before)
                    &&& self.stack@ == before.stack@.drop_last()
                    &&& self.gc.wf()
                    &&& forall|h: usize| self.gc.contains(h) == before.gc.contains(h)
                    &&& forall|h: usize|
                        h != target.spec_handle()->Some_0 && before.gc.contains(h)
                            ==> self.gc.object(h) == before.gc.object(h)
                    &&& self.methods_of(target) is Some
                    &&& entry_names(self.methods_of(target)->Some_0) == (match position(
                        entry_names(methods),
                        name,
                    ) {
                        Some(i) => entry_names(methods),
                        None => entry_names(methods).push(name),
                    })
                    &&& entry_named(self.methods_of(target)->Some_0, name) == Some(
                        before.operand(0),
                    )
                    &&& forall|other: Seq<char>|
                        other != name ==> entry_named(self.methods_of(target)->Some_0, other)
                            == entry_named(methods, other)
                    &&& self.same_descriptor(before, target)
                },
            }
        }
    }

    /// Whether the descriptor that `target` names is in `self` what it is
    /// in `before`, but for its methods.
    pub open spec fn same_descriptor(&self, before: &VM, target: Value) -> bool {
        match (self.gc.object(target.spec_handle()->Some_0), before.gc.object(
            target.spec_handle()->Some_0,
        )) {
            (OwnedObjectItem::StructDescriptor(now), OwnedObjectItem::StructDescriptor(then)) => now.name
                == then.name && now.fields == then.fields && now.enum_descriptor
                == then.enum_descriptor,
            (OwnedObjectItem::EnumDescriptor(now), OwnedObjectItem::EnumDescriptor(then)) => now.name
                == then.name && now.variants == then.variants,
            _ => false,
        }
    }

    pub fn set_method(&mut self, ix: u16) -> (result: Result<(), RuntimeErrorKind>)
        requires
            old(self).wf(),
        ensures
            final(self).wf(),
            final(self).frames == old(self).frames,
            final(self).method_set_from(old(self), ix, result),
    {
        if !self.operands_available(2) {
            return Err(RuntimeErrorKind::InvalidBytecode);
        }
        let name = match self.constant_name(ix) {
            Some(name) => name,
            None => {
                return Err(RuntimeErrorKind::InvalidBytecode);
            },
        };
        let height = self.stack.len();
        let target = self.stack[height - 2];
        let value = self.stack[height - 1];
        let h = match target {
            Value::StructDescriptor(h) => match self.gc.get(h) {
                Some(OwnedObjectItem::StructDescriptor(_)) => h,
                _ => {
                    return Err(RuntimeErrorKind::RuntimeTypeError);
                },
            },
            Value::EnumDescriptor(h) => match self.gc.get(h) {
                Some(OwnedObjectItem::EnumDescriptor(_)) => h,
                _ => {
                    return Err(RuntimeErrorKind::RuntimeTypeError);
                },
            },
            _ => {
                return Err(RuntimeErrorKind::RuntimeTypeError);
            },
        };
        let ghost methods = old(self).methods_of(target)->Some_0;
        let former = self.gc.replace(h, OwnedObjectItem::Cell(Value::Nothing));
        let updated = match former {
            Some(OwnedObjectItem::StructDescriptor(mut descriptor)) => {
                put_entry(&mut descriptor.methods, name, value);
                OwnedObjectItem::StructDescriptor(descriptor)
            },
            Some(OwnedObjectItem::EnumDescriptor(mut descriptor)) => {
                put_entry(&mut descriptor.methods, name, value);
                OwnedObjectItem::EnumDescriptor(descriptor)
            },
            Some(other) => other,
            None => OwnedObjectItem::Cell(Value::Nothing),
        };
        self.gc.replace(h, updated);
        self.stack.truncate(height - 1);
        Ok(())
    }
}

/// Puts `value` under `name`: in the place of the first entry of that
/// name, or after the other entries.
pub fn put_entry(entries: &mut Vec<(String, Value)>, name: String, value: Value)
    ensures
        entry_names(final(entries)@) == (match position(entry_names(old(entries)@), name@) {
            Some(i) => entry_names(old(entries)@),
            None => entry_names(old(entries)@).push(name@),
        }),
        entry_named(final(entries)@, name@) == Some(value),
        forall|other: Seq<char>|
            other != name@ ==> entry_named(final(entries)@, other) == entry_named(
                old(entries)@,
                other,
            ),
{
    let ghost before = entries@;
    let ghost key = name@;
    let mut i: usize = 0;
    while i < entries.len()
        invariant
            i <= entries.len(),
            entries@ == before,
            before == old(entries)@,
            key == name@,
            forall|j: int| 0 <= j < i ==> #[trigger] entry_names(before)[j] != key,
        decreases entries.len() - i,
    {
        if entries[i].0 == name {
            entries.set(i, (name, value));
            proof {
                lemma_position(entry_names(before), key);
                assert(entry_names(before)[i as int] == key);
                assert(entry_names(entries@) =~= entry_names(before));
                lemma_position(entry_names(entries@), key);
                assert(position(entry_names(before), key) == Some(i as int)) by {
                    let k = position(entry_names(before), key)->Some_0;
                    if k < i {
                        assert(entry_names(before)[k] != key);
                    }
                }
                assert forall|other: Seq<char>| other != key implies entry_named(entries@, other)
                    == entry_named(before, other) by {
                    lemma_position(entry_names(before), other);
                    match position(entry_names(before), other) {
                        Some(k) => {
                            assert(entry_names(before)[k] == other);
                            assert(k != i);
                            assert(entries@[k] == before[k]);
                        },
                        None => {},
                    }
                }
            }
            return ;
        }
        assert(entry_names(before)[i as int] != key);
        i += 1;
    }
    entries.push((name, value));
    proof {
        lemma_position(entry_names(before), key);
        if position(entry_names(before), key) is Some {
            let k = position(entry_names(before), key)->Some_0;
            assert(entry_names(before)[k] != key);
        }
        assert(entry_names(entries@) =~= entry_names(before).push(key));
        lemma_position_push(entry_names(before), key, key);
        assert forall|other: Seq<char>| other != key implies entry_named(entries@, other)
            == entry_named(before, other) by {
            lemma_position_push(entry_names(before), key, other);
            match position(entry_names(before), other) {
                Some(k) => {
                    lemma_position(entry_names(before), other);
                    assert(entries@[k] == before[k]);
                },
                None => {},
            }
        }
    }
}

/// The position of a key after one more name was added at the end.
pub proof fn lemma_position_push(names: Seq<Seq<char>>, added: Seq<char>, key: Seq<char>)
    ensures
        position(names.push(added), key) == (match position(names, key) {
            Some(i) => Some(i),
            None => if added == key {
                Some(names.len() as int)
            } else {
                None
            },
        }),
{
    assert(names.push(added).drop_last() =~= names);
}

} // verus!
