use vstd::prelude::*;
use crate::execution::chunk::Chunk;

verus! {

/// A value of the language. Integers and `Nothing` are immediate; every other
/// variant names an object of the heap by its handle, and two such values are
/// equal exactly when they name the same object.
#[derive(Clone, Copy, Debug, PartialEq, Eq, Structural)]
pub enum Value {
    Int(i64),
    Str(usize),
    List(usize),
    Function(usize),
    Partial(usize),
    Builtin(usize),
    BoundMethod(usize),
    StructDescriptor(usize),
    StructInstance(usize),
    EnumDescriptor(usize),
    EnumInstance(usize),
    Cell(usize),
    Hole,
    Nothing,
}

/// A partially applied callable: the callee and its argument slots, of which
/// the empty ones are still to be supplied.
#[derive(Debug)]
pub struct PartialApp {
    pub callee: Value,
    pub bound_args: Vec<Option<Value>>,
}

/// A builtin method together with the object it was looked up on.
#[derive(Clone, Copy, Debug, PartialEq, Eq, Structural)]
pub struct BoundMethod {
    pub self_object: Value,
    pub class_idx: usize,
    pub method_idx: usize,
}

/// A function value: its body, which is another object of the heap, and the
/// bindings captured when the closure was made.
#[derive(Debug)]
pub struct Closure {
    pub function: usize,
    pub upvalues: Vec<Value>,
}

/// The runtime representation of a struct type, or of one variant of an
/// enumeration: its name, its ordered fields, and its methods by name.
#[derive(Debug)]
pub struct StructDescriptor {
    pub name: String,
    pub fields: Vec<String>,
    pub methods: Vec<(String, Value)>,
    pub enum_descriptor: Option<usize>,
}

/// The runtime representation of an enumeration: its name and its variants,
/// each a struct descriptor of the heap, in declaration order.
#[derive(Debug)]
pub struct EnumDescriptor {
    pub name: String,
    pub variants: Vec<(String, Value)>,
    pub methods: Vec<(String, Value)>,
}

/// An instance of a struct or of an enumeration variant.
#[derive(Debug)]
pub struct Instance {
    pub descriptor: usize,
    pub fields: Vec<Value>,
}

/// What the heap stores.
#[derive(Debug)]
pub enum OwnedObjectItem {
    Str(String),
    List(Vec<Value>),
    Cell(Value),
    Function(Chunk),
    Closure(Closure),
    Partial(PartialApp),
    BoundMethod(BoundMethod),
    StructDescriptor(StructDescriptor),
    EnumDescriptor(EnumDescriptor),
    StructInstance(Instance),
    EnumInstance(Instance),
}

impl OwnedObjectItem {
    /// The value that names an object of this kind stored under `handle`.
    pub open spec fn spec_value_at(&self, handle: usize) -> Value {
        match self {
            OwnedObjectItem::Str(_) => Value::Str(handle),
            OwnedObjectItem::List(_) => Value::List(handle),
            OwnedObjectItem::Cell(_) => Value::Cell(handle),
            OwnedObjectItem::Function(_) => Value::Function(handle),
            OwnedObjectItem::Closure(_) => Value::Function(handle),
            OwnedObjectItem::Partial(_) => Value::Partial(handle),
            OwnedObjectItem::BoundMethod(_) => Value::BoundMethod(handle),
            OwnedObjectItem::StructDescriptor(_) => Value::StructDescriptor(handle),
            OwnedObjectItem::EnumDescriptor(_) => Value::EnumDescriptor(handle),
            OwnedObjectItem::StructInstance(_) => Value::StructInstance(handle),
            OwnedObjectItem::EnumInstance(_) => Value::EnumInstance(handle),
        }
    }

    #[verifier::when_used_as_spec(spec_value_at)]
    pub fn value_at(&self, handle: usize) -> (v: Value)
        ensures
            v == self.spec_value_at(handle),
    {
        match self {
            OwnedObjectItem::Str(_) => Value::Str(handle),
            OwnedObjectItem::List(_) => Value::List(handle),
            OwnedObjectItem::Cell(_) => Value::Cell(handle),
            OwnedObjectItem::Function(_) => Value::Function(handle),
            OwnedObjectItem::Closure(_) => Value::Function(handle),
            OwnedObjectItem::Partial(_) => Value::Partial(handle),
            OwnedObjectItem::BoundMethod(_) => Value::BoundMethod(handle),
            OwnedObjectItem::StructDescriptor(_) => Value::StructDescriptor(handle),
            OwnedObjectItem::EnumDescriptor(_) => Value::EnumDescriptor(handle),
            OwnedObjectItem::StructInstance(_) => Value::StructInstance(handle),
            OwnedObjectItem::EnumInstance(_) => Value::EnumInstance(handle),
        }
    }
}

/// The value of an argument slot of a partial application; an empty slot
/// counts as `Nothing`.
pub open spec fn slot_value(slot: Option<Value>) -> Value {
    match slot {
        Some(v) => v,
        None => Value::Nothing,
    }
}

/// The value of a named entry.
pub open spec fn entry_value(entry: (String, Value)) -> Value {
    entry.1
}

impl OwnedObjectItem {
    /// The values that an object holds: what it refers to directly.
    pub open spec fn spec_references(&self) -> Seq<Value> {
        match self {
            OwnedObjectItem::Str(_) => Seq::empty(),
            OwnedObjectItem::List(elements) => elements@,
            OwnedObjectItem::Cell(content) => seq![*content],
            OwnedObjectItem::Function(chunk) => chunk.constants@,
            OwnedObjectItem::Closure(closure) => seq![Value::Function(closure.function)]
                + closure.upvalues@,
            OwnedObjectItem::Partial(partial) => seq![partial.callee] + partial.bound_args@.map_values(
                |slot: Option<Value>| slot_value(slot),
            ),
            OwnedObjectItem::BoundMethod(bound) => seq![bound.self_object],
            OwnedObjectItem::StructDescriptor(descriptor) => seq![
                match descriptor.enum_descriptor {
                    Some(parent) => Value::EnumDescriptor(parent),
                    None => Value::Nothing,
                },
            ] + descriptor.methods@.map_values(|entry: (String, Value)| entry_value(entry)),
            OwnedObjectItem::EnumDescriptor(descriptor) => descriptor.variants@.map_values(
                |entry: (String, Value)| entry_value(entry),
            ) + descriptor.methods@.map_values(|entry: (String, Value)| entry_value(entry)),
            OwnedObjectItem::StructInstance(instance) => seq![
                Value::StructDescriptor(instance.descriptor),
            ] + instance.fields@,
            OwnedObjectItem::EnumInstance(instance) => seq![
                Value::StructDescriptor(instance.descriptor),
            ] + instance.fields@,
        }
    }

    /// Collects the values that an object holds.
    pub fn references(&self) -> (values: Vec<Value>)
        ensures
            values@ == self.spec_references(),
    {
        let mut values: Vec<Value> = Vec::new();
        match self {
            OwnedObjectItem::Str(_) => {},
            OwnedObjectItem::List(elements) => {
                append_values(&mut values, elements);
            },
            OwnedObjectItem::Cell(content) => {
                values.push(*content);
            },
            OwnedObjectItem::Function(chunk) => {
                append_values(&mut values, &chunk.constants);
            },
            OwnedObjectItem::Closure(closure) => {
                values.push(Value::Function(closure.function));
                append_values(&mut values, &closure.upvalues);
            },
            OwnedObjectItem::Partial(partial) => {
                values.push(partial.callee);
                let mut i: usize = 0;
                while i < partial.bound_args.len()
                    invariant
                        i <= partial.bound_args.len(),
                        values@ == seq![partial.callee] + partial.bound_args@.subrange(
                            0,
                            i as int,
                        ).map_values(|slot: Option<Value>| slot_value(slot)),
                    decreases partial.bound_args.len() - i,
                {
                    let v = match partial.bound_args[i] {
                        Some(v) => v,
                        None => Value::Nothing,
                    };
                    values.push(v);
                    i += 1;
                    assert(values@ =~= seq![partial.callee] + partial.bound_args@.subrange(
                        0,
                        i as int,
                    ).map_values(|slot: Option<Value>| slot_value(slot)));
                }
                assert(partial.bound_args@.subrange(0, i as int) =~= partial.bound_args@);
            },
            OwnedObjectItem::BoundMethod(bound) => {
                values.push(bound.self_object);
            },
            OwnedObjectItem::StructDescriptor(descriptor) => {
                values.push(
                    match descriptor.enum_descriptor {
                        Some(parent) => Value::EnumDescriptor(parent),
                        None => Value::Nothing,
                    },
                );
                append_entry_values(&mut values, &descriptor.methods);
            },
            OwnedObjectItem::EnumDescriptor(descriptor) => {
                append_entry_values(&mut values, &descriptor.variants);
                append_entry_values(&mut values, &descriptor.methods);
                assert(values@ =~= self.spec_references());
            },
            OwnedObjectItem::StructInstance(instance) => {
                values.push(Value::StructDescriptor(instance.descriptor));
                append_values(&mut values, &instance.fields);
            },
            OwnedObjectItem::EnumInstance(instance) => {
                values.push(Value::StructDescriptor(instance.descriptor));
                append_values(&mut values, &instance.fields);
            },
        }
        assert(values@ =~= self.spec_references());
        values
    }
}

/// Appends the values of `source` to `target`.
pub fn append_values(target: &mut Vec<Value>, source: &Vec<Value>)
    ensures
        final(target)@ == old(target)@ + source@,
{
    let mut i: usize = 0;
    while i < source.len()
        invariant
            i <= source.len(),
            target@ == old(target)@ + source@.subrange(0, i as int),
        decreases source.len() - i,
    {
        target.push(source[i]);
        i += 1;
        assert(target@ =~= old(target)@ + source@.subrange(0, i as int));
    }
    assert(source@.subrange(0, i as int) =~= source@);
}

fn append_entry_values(target: &mut Vec<Value>, source: &Vec<(String, Value)>)
    ensures
        final(target)@ == old(target)@ + source@.map_values(
            |entry: (String, Value)| entry_value(entry),
        ),
{
    let mut i: usize = 0;
    while i < source.len()
        invariant
            i <= source.len(),
            target@ == old(target)@ + source@.subrange(0, i as int).map_values(
                |entry: (String, Value)| entry_value(entry),
            ),
        decreases source.len() - i,
    {
        target.push(source[i].1);
        i += 1;
        assert(target@ =~= old(target)@ + source@.subrange(0, i as int).map_values(
            |entry: (String, Value)| entry_value(entry),
        ));
    }
    assert(source@.subrange(0, i as int) =~= source@);
}

impl Value {
    /// The handle that a value names, if it names an object of the heap.
    pub open spec fn spec_handle(self) -> Option<usize> {
        match self {
            Value::Str(h) => Some(h),
            Value::List(h) => Some(h),
            Value::Function(h) => Some(h),
            Value::Partial(h) => Some(h),
            Value::BoundMethod(h) => Some(h),
            Value::StructDescriptor(h) => Some(h),
            Value::StructInstance(h) => Some(h),
            Value::EnumDescriptor(h) => Some(h),
            Value::EnumInstance(h) => Some(h),
            Value::Cell(h) => Some(h),
            Value::Int(_) => None,
            Value::Builtin(_) => None,
            Value::Hole => None,
            Value::Nothing => None,
        }
    }

    #[verifier::when_used_as_spec(spec_handle)]
    pub fn handle(self) -> (h: Option<usize>)
        ensures
            h == self.spec_handle(),
    {
        match self {
            Value::Str(h) => Some(h),
            Value::List(h) => Some(h),
            Value::Function(h) => Some(h),
            Value::Partial(h) => Some(h),
            Value::BoundMethod(h) => Some(h),
            Value::StructDescriptor(h) => Some(h),
            Value::StructInstance(h) => Some(h),
            Value::EnumDescriptor(h) => Some(h),
            Value::EnumInstance(h) => Some(h),
            Value::Cell(h) => Some(h),
            Value::Int(_) => None,
            Value::Builtin(_) => None,
            Value::Hole => None,
            Value::Nothing => None,
        }
    }

    /// The name of a value's type, as error messages and method lookup use it.
    pub open spec fn spec_type_string(self) -> Seq<char> {
        match self {
            Value::Int(_) => "Int"@,
            Value::Str(_) => "String"@,
            Value::List(_) => "List"@,
            Value::Function(_) => "Function"@,
            Value::Partial(_) => "Partial"@,
            Value::Builtin(_) => "Builtin"@,
            Value::BoundMethod(_) => "BoundMethod"@,
            Value::StructDescriptor(_) => "StructDescriptor"@,
            Value::StructInstance(_) => "StructInstance"@,
            Value::EnumDescriptor(_) => "EnumDescriptor"@,
            Value::EnumInstance(_) => "EnumInstance"@,
            Value::Cell(_) => "Cell"@,
            Value::Hole => "Hole"@,
            Value::Nothing => "Nothing"@,
        }
    }

    pub fn type_string(self) -> (name: &'static str)
        ensures
            name@ == self.spec_type_string(),
    {
        match self {
            Value::Int(_) => "Int",
            Value::Str(_) => "String",
            Value::List(_) => "List",
            Value::Function(_) => "Function",
            Value::Partial(_) => "Partial",
            Value::Builtin(_) => "Builtin",
            Value::BoundMethod(_) => "BoundMethod",
            Value::StructDescriptor(_) => "StructDescriptor",
            Value::StructInstance(_) => "StructInstance",
            Value::EnumDescriptor(_) => "EnumDescriptor",
            Value::EnumInstance(_) => "EnumInstance",
            Value::Cell(_) => "Cell",
            Value::Hole => "Hole",
            Value::Nothing => "Nothing",
        }
    }

    /// Whether a value counts as true: every value but the integer zero and
    /// `Nothing` does.
    pub open spec fn spec_truthy(self) -> bool {
        self != Value::Int(0) && self != Value::Nothing
    }

    #[verifier::when_used_as_spec(spec_truthy)]
    pub fn truthy(self) -> (t: bool)
        ensures
            t == self.spec_truthy(),
    {
        match self {
            Value::Int(n) => n != 0,
            Value::Nothing => false,
            _ => true,
        }
    }

    /// The integer that stands for a truth value: one for true, zero for false.
    pub open spec fn spec_from_bool(b: bool) -> Value {
        if b {
            Value::Int(1)
        } else {
            Value::Int(0)
        }
    }

    #[verifier::when_used_as_spec(spec_from_bool)]
    pub fn from_bool(b: bool) -> (v: Value)
        ensures
            v == Value::spec_from_bool(b),
    {
        if b {
            Value::Int(1)
        } else {
            Value::Int(0)
        }
    }

}

} // verus!
