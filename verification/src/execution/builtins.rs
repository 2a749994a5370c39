use vstd::prelude::*;
use crate::data::objects::{BoundMethod, OwnedObjectItem, Value};
use crate::execution::arity::Arity;
use crate::execution::registry::{
    class_entries, class_table_get_full, class_table_get_index, class_table_insert, class_table_new,
    native_entries, native_table_get_full, native_table_get_index, native_table_insert,
    native_table_new, no_key, BuiltinFunction, BuiltinMethod, ClassTable, Native, NativeEntry,
    NativeTable,
};
use crate::execution::vm::VM;
use crate::execution::arith::{int_abs, int_rem, magnitude, truncated_rem, wrap};
use crate::text::{decimal, join2, parse_i64, parse_int, render_u64};
use vstd::string::StringExecFns;

verus! {

/// The registry of native functions and methods. Both tables keep the order
/// in which names were added, and bytecode refers to an entry by its place.
pub struct BuiltinMap {
    functions: NativeTable,
    methods: ClassTable,
}

/// Why a builtin could not be applied.
#[derive(Debug)]
pub enum BuiltinError {
    ArityMismatch { provided: usize, expected: Arity },
    Other(String),
}

impl BuiltinError {
    /// The text of the error.
    pub open spec fn spec_to_string(&self) -> Seq<char> {
        match self {
            BuiltinError::ArityMismatch { provided, expected } => "expected "@
                + expected.spec_to_string() + " args but got "@ + decimal(*provided as nat),
            BuiltinError::Other(text) => text@,
        }
    }

    pub fn to_string(&self) -> (text: String)
        ensures
            text@ == self.spec_to_string(),
    {
        match self {
            BuiltinError::ArityMismatch { provided, expected } => {
                let expected_text = expected.to_string();
                let provided_text = render_u64(*provided as u64);
                let mut text = join2("expected ", expected_text.as_str());
                text.append(" args but got ");
                text.append(provided_text.as_str());
                text
            },
            BuiltinError::Other(text) => text.clone(),
        }
    }
}

impl From<String> for BuiltinError {
    fn from(s: String) -> (e: BuiltinError) {
        BuiltinError::Other(s)
    }
}

impl vstd::std_specs::convert::FromSpecImpl<String> for BuiltinError {
    open spec fn obeys_from_spec() -> bool {
        true
    }

    open spec fn from_spec(s: String) -> BuiltinError {
        BuiltinError::Other(s)
    }
}

/// What applying a builtin comes to, with the text of a failure as plain
/// characters.
pub enum Applied {
    Returned(Value),
    ArityMismatch { provided: usize, expected: Arity },
    Failed(Seq<char>),
}

/// The outcome that a result of applying a builtin stands for.
pub open spec fn applied(result: Result<Value, BuiltinError>) -> Applied {
    match result {
        Ok(value) => Applied::Returned(value),
        Err(BuiltinError::ArityMismatch { provided, expected }) => Applied::ArityMismatch {
            provided,
            expected,
        },
        Err(BuiltinError::Other(text)) => Applied::Failed(text@),
    }
}

/// The number of integers that `values` starts with.
pub open spec fn int_prefix(values: Seq<Value>) -> nat
    decreases values.len(),
{
    if values.len() == 0 || !(values[0] is Int) {
        0
    } else {
        1 + int_prefix(values.drop_first())
    }
}

/// The sum of the integers among `values`.
pub open spec fn sum_of(values: Seq<Value>) -> int
    decreases values.len(),
{
    if values.len() == 0 {
        0
    } else {
        sum_of(values.drop_last()) + match values.last() {
            Value::Int(n) => n as int,
            _ => 0,
        }
    }
}

/// What a native function returns for `args`.
///
/// `sum` adds up the integers of the list that is its first argument and
/// wraps the total to `i64`; it fails at the first element that is no
/// integer. `int` reads the string that is its first argument as a decimal
/// integer. `list` returns its last argument. `arity` returns the number of
/// arguments that its first argument requires, `is_vararg` whether it takes
/// more than those (1) or not (0); a value that cannot be called takes none.
pub open spec fn spec_native_function(f: BuiltinFunction, args: Seq<Value>, vm: &VM) -> Applied {
    if args.len() == 0 {
        Applied::Failed("expected at least one argument"@)
    } else {
        match f {
            BuiltinFunction::Sum => match vm.gc.spec_list(args[0]) {
                Some(elements) => if int_prefix(elements) < elements.len() {
                    Applied::Failed(
                        "expected all args of type int, got "@ + decimal(int_prefix(elements))
                            + " arg of "@ + elements[int_prefix(elements) as int].spec_type_string(),
                    )
                } else {
                    Applied::Returned(Value::Int(wrap(sum_of(elements))))
                },
                None => Applied::Failed("expected a list of arguments"@),
            },
            BuiltinFunction::Int => match vm.gc.spec_text(args[0]) {
                Some(text) => match parse_int(text) {
                    Some(n) => Applied::Returned(Value::Int(n)),
                    None => Applied::Failed("failed to parse "@ + text),
                },
                None => Applied::Failed("expected string-like in int"@),
            },
            BuiltinFunction::List => Applied::Returned(args.last()),
            BuiltinFunction::Arity => match vm.spec_arity_of(args[0]) {
                Some(arity) => Applied::Returned(Value::Int(arity.spec_count() as i64)),
                None => Applied::Failed("expected callable, got "@ + args[0].spec_type_string()),
            },
            BuiltinFunction::IsVararg => match vm.spec_arity_of(args[0]) {
                Some(arity) => Applied::Returned(
                    Value::Int(
                        if arity.spec_is_vararg() {
                            1
                        } else {
                            0
                        },
                    ),
                ),
                None => Applied::Returned(Value::Int(0)),
            },
        }
    }
}

/// What a native method returns for the object it was looked up on and
/// `args`: `abs` the magnitude of an integer, `_mod` the remainder of
/// dividing it by the first argument, rounding toward zero; both wrap to
/// `i64`.
pub open spec fn spec_native_method(m: BuiltinMethod, object: Value, args: Seq<Value>) -> Applied {
    match m {
        BuiltinMethod::IntAbs => match object {
            Value::Int(n) => Applied::Returned(Value::Int(wrap(magnitude(n as int)))),
            _ => Applied::Failed("expected int"@),
        },
        BuiltinMethod::IntMod => if args.len() == 0 {
            Applied::Failed("expected at least one argument"@)
        } else {
            match (object, args[0]) {
                (Value::Int(a), Value::Int(b)) => if b == 0 {
                    Applied::Failed("division by zero"@)
                } else {
                    Applied::Returned(Value::Int(wrap(truncated_rem(a as int, b as int))))
                },
                _ => Applied::Failed("expected int"@),
            }
        },
    }
}

proof fn lemma_int_prefix(values: Seq<Value>, k: int)
    requires
        0 <= k <= values.len(),
        forall|j: int| 0 <= j < k ==> (#[trigger] values[j]) is Int,
        k < values.len() ==> !(values[k] is Int),
    ensures
        int_prefix(values) == k,
    decreases k,
{
    if k > 0 {
        assert(values[0] is Int);
        let rest = values.drop_first();
        assert forall|j: int| 0 <= j < k - 1 implies (#[trigger] rest[j]) is Int by {
            assert(rest[j] == values[j + 1]);
        }
        lemma_int_prefix(rest, k - 1);
    }
}

proof fn lemma_wrap_add(x: int, y: int)
    requires
        i64::MIN <= y <= i64::MAX,
    ensures
        wrap(wrap(x) + y) == wrap(x + y),
{
    let m = 0x1_0000_0000_0000_0000int;
    let h = 0x8000_0000_0000_0000int;
    vstd::arithmetic::div_mod::lemma_add_mod_noop(x + h, y, m);
    vstd::arithmetic::div_mod::lemma_mod_twice(x + h, m);
    vstd::arithmetic::div_mod::lemma_add_mod_noop((x + h) % m, y, m);
}

fn native_sum(elements: &Vec<Value>) -> (result: Result<Value, BuiltinError>)
    ensures
        applied(result) == if int_prefix(elements@) < elements@.len() {
            Applied::Failed(
                "expected all args of type int, got "@ + decimal(int_prefix(elements@))
                    + " arg of "@ + elements@[int_prefix(elements@) as int].spec_type_string(),
            )
        } else {
            Applied::Returned(Value::Int(wrap(sum_of(elements@))))
        },
{
    let mut total: i64 = 0;
    let mut i: usize = 0;
    while i < elements.len()
        invariant
            i <= elements.len(),
            forall|j: int| 0 <= j < i ==> (#[trigger] elements@[j]) is Int,
            total == wrap(sum_of(elements@.subrange(0, i as int))),
        decreases elements.len() - i,
    {
        match elements[i] {
            Value::Int(n) => {
                proof {
                    assert(elements@.subrange(0, i + 1).drop_last() =~= elements@.subrange(
                        0,
                        i as int,
                    ));
                    lemma_wrap_add(sum_of(elements@.subrange(0, i as int)), n as int);
                }
                total = total.wrapping_add(n);
            },
            other => {
                proof {
                    lemma_int_prefix(elements@, i as int);
                }
                let place = render_u64(i as u64);
                let mut text = join2("expected all args of type int, got ", place.as_str());
                text.append(" arg of ");
                text.append(other.type_string());
                return Err(BuiltinError::Other(text));
            },
        }
        i += 1;
    }
    proof {
        lemma_int_prefix(elements@, elements@.len() as int);
        assert(elements@.subrange(0, elements@.len() as int) =~= elements@);
    }
    Ok(Value::Int(total))
}

fn apply_native_function(f: BuiltinFunction, args: &Vec<Value>, vm: &VM) -> (result: Result<
    Value,
    BuiltinError,
>)
    ensures
        applied(result) == spec_native_function(f, args@, vm),
{
    if args.len() == 0 {
        return Err(BuiltinError::Other(String::from_str("expected at least one argument")));
    }
    match f {
        BuiltinFunction::Sum => match vm.gc.list(args[0]) {
            Some(elements) => native_sum(elements),
            None => Err(BuiltinError::Other(String::from_str("expected a list of arguments"))),
        },
        BuiltinFunction::Int => match vm.gc.text(args[0]) {
            Some(text) => match parse_i64(text.as_str()) {
                Some(n) => Ok(Value::Int(n)),
                None => Err(BuiltinError::Other(join2("failed to parse ", text.as_str()))),
            },
            None => Err(BuiltinError::Other(String::from_str("expected string-like in int"))),
        },
        BuiltinFunction::List => Ok(args[args.len() - 1]),
        BuiltinFunction::Arity => match vm.arity_of(args[0]) {
            Some(arity) => Ok(Value::Int(arity.count() as i64)),
            None => Err(
                BuiltinError::Other(join2("expected callable, got ", args[0].type_string())),
            ),
        },
        BuiltinFunction::IsVararg => match vm.arity_of(args[0]) {
            Some(arity) => Ok(
                Value::Int(
                    if arity.is_vararg() {
                        1
                    } else {
                        0
                    },
                ),
            ),
            None => Ok(Value::Int(0)),
        },
    }
}

fn apply_native_method(m: BuiltinMethod, object: Value, args: &Vec<Value>) -> (result: Result<
    Value,
    BuiltinError,
>)
    ensures
        applied(result) == spec_native_method(m, object, args@),
{
    match m {
        BuiltinMethod::IntAbs => match object {
            Value::Int(n) => Ok(Value::Int(int_abs(n))),
            _ => Err(BuiltinError::Other(String::from_str("expected int"))),
        },
        BuiltinMethod::IntMod => {
            if args.len() == 0 {
                return Err(
                    BuiltinError::Other(String::from_str("expected at least one argument")),
                );
            }
            match (object, args[0]) {
                (Value::Int(a), Value::Int(b)) => match int_rem(a, b) {
                    Some(r) => Ok(Value::Int(r)),
                    None => Err(BuiltinError::Other(String::from_str("division by zero"))),
                },
                _ => Err(BuiltinError::Other(String::from_str("expected int"))),
            }
        },
    }
}

/// Holds a call with `provided` arguments against an arity.
pub fn check_arity(arity: Arity, provided: usize) -> (result: Result<(), BuiltinError>)
    ensures
        arity.spec_accepts(provided as nat) ==> result is Ok,
        !arity.spec_accepts(provided as nat) ==> result == Err::<(), BuiltinError>(
            BuiltinError::ArityMismatch { provided, expected: arity },
        ),
{
    if !arity.accepts(provided) {
        Err(BuiltinError::ArityMismatch { provided, expected: arity })
    } else {
        Ok(())
    }
}

/// The keys of `entries`, in order.
pub open spec fn keys<V>(entries: Seq<(Seq<char>, V)>) -> Seq<Seq<char>> {
    Seq::new(entries.len(), |i: int| entries[i].0)
}

/// The first place at which `key` stands in `names`, if it stands there.
pub open spec fn position(names: Seq<Seq<char>>, key: Seq<char>) -> Option<int>
    decreases names.len(),
{
    if names.len() == 0 {
        None
    } else if names.last() == key && position(names.drop_last(), key) is None {
        Some(names.len() - 1)
    } else {
        position(names.drop_last(), key)
    }
}

/// `entries` with `value` under `key`: in the place of the pair that has the
/// key, or last where no pair has it.
pub open spec fn spec_insert<V>(entries: Seq<(Seq<char>, V)>, key: Seq<char>, value: V) -> Seq<
    (Seq<char>, V),
> {
    match position(keys(entries), key) {
        Some(k) => entries.update(k, (key, value)),
        None => entries.push((key, value)),
    }
}

/// A position is the least index that holds the key; there is none exactly
/// when the key does not occur.
pub proof fn lemma_position(names: Seq<Seq<char>>, key: Seq<char>)
    ensures
        position(names, key) matches Some(k) ==> 0 <= k < names.len() && names[k] == key && forall|
            j: int,
        |
            0 <= j < k ==> names[j] != key,
        position(names, key) is None ==> forall|j: int| 0 <= j < names.len() ==> names[j] != key,
    decreases names.len(),
{
    if names.len() > 0 {
        lemma_position(names.drop_last(), key);
        assert forall|j: int| 0 <= j < names.len() - 1 implies names[j] == names.drop_last()[j] by {}
    }
}

proof fn lemma_insert_cases<V>(entries: Seq<(Seq<char>, V)>, key: Seq<char>, value: V)
    requires
        distinct_keys(entries),
    ensures
        distinct_keys(spec_insert(entries, key, value)),
        position(keys(entries), key) is None ==> no_key(entries, key),
        position(keys(entries), key) matches Some(k) ==> 0 <= k < entries.len() && entries[k].0
            == key,
        forall|i: int|
            0 <= i < entries.len() && (#[trigger] entries[i]).0 == key ==> position(
                keys(entries),
                key,
            ) == Some(i),
{
    lemma_position(keys(entries), key);
    assert forall|i: int| 0 <= i < entries.len() implies keys(entries)[i] == (
    #[trigger] entries[i]).0 by {}
    let after = spec_insert(entries, key, value);
    assert forall|i: int, j: int| 0 <= i < j < after.len() implies (#[trigger] after[i]).0 != (
    #[trigger] after[j]).0 by {
        if i < entries.len() {
            assert(entries[i].0 == keys(entries)[i]);
        }
        if j < entries.len() {
            assert(entries[j].0 == keys(entries)[j]);
        }
    }
    assert forall|i: int| 0 <= i < entries.len() && (#[trigger] entries[i]).0 == key implies position(
        keys(entries),
        key,
    ) == Some(i) by {
        let k = position(keys(entries), key)->Some_0;
        assert(keys(entries)[i] == key);
        assert(entries[k].0 == key);
        if k < i {
            assert(entries[k].0 != entries[i].0);
        } else if i < k {
            assert(keys(entries)[i] != key);
        }
    }
}

/// Whether no two pairs of `entries` have the same key.
pub open spec fn distinct_keys<V>(entries: Seq<(Seq<char>, V)>) -> bool {
    forall|i: int, j: int|
        0 <= i < j < entries.len() ==> (#[trigger] entries[i]).0 != (#[trigger] entries[j]).0
}

impl BuiltinMap {
    /// The native functions by name, in the order of their indices.
    pub closed spec fn functions(&self) -> Seq<(Seq<char>, NativeEntry)> {
        native_entries(self.functions)
    }

    /// The number of classes that have native methods.
    pub closed spec fn class_count(&self) -> nat {
        class_entries(self.methods).len()
    }

    /// The name of the class at index `class_idx`.
    pub closed spec fn class_name(&self, class_idx: int) -> Seq<char> {
        class_entries(self.methods)[class_idx].0
    }

    /// The native methods of the class at index `class_idx` by name, in the
    /// order of their indices.
    pub closed spec fn class_methods(&self, class_idx: int) -> Seq<(Seq<char>, NativeEntry)> {
        native_entries(class_entries(self.methods)[class_idx].1)
    }

    /// No name occurs twice in a table, the function table holds functions
    /// and the method tables hold methods.
    pub closed spec fn wf(&self) -> bool {
        &&& distinct_keys(native_entries(self.functions))
        &&& distinct_keys(class_entries(self.methods))
        &&& forall|i: int|
            0 <= i < native_entries(self.functions).len() ==> (#[trigger] native_entries(
                self.functions,
            )[i]).1.native is Function
        &&& forall|c: int|
            0 <= c < class_entries(self.methods).len() ==> distinct_keys(
                native_entries((#[trigger] class_entries(self.methods)[c]).1),
            )
        &&& forall|c: int, m: int|
            0 <= c < class_entries(self.methods).len() && 0 <= m < native_entries(
                class_entries(self.methods)[c].1,
            ).len() ==> (#[trigger] native_entries(
                (#[trigger] class_entries(self.methods)[c]).1,
            )[m]).1.native is Method
    }

    /// The arity of the native function at index `idx`.
    pub open spec fn spec_builtin_arity(&self, idx: usize) -> Option<Arity> {
        if idx < self.functions().len() {
            Some(self.functions()[idx as int].1.arity)
        } else {
            None
        }
    }

    /// The arity of the native method at index `method_idx` of the class at
    /// index `class_idx`.
    pub open spec fn spec_method_arity(&self, class_idx: usize, method_idx: usize) -> Option<Arity> {
        if class_idx < self.class_count() && method_idx < self.class_methods(class_idx as int).len() {
            Some(self.class_methods(class_idx as int)[method_idx as int].1.arity)
        } else {
            None
        }
    }

    /// An empty registry.
    fn new() -> (map: BuiltinMap)
        ensures
            map.wf(),
            map.functions() == Seq::<(Seq<char>, NativeEntry)>::empty(),
            map.class_count() == 0,
    {
        BuiltinMap { functions: native_table_new(), methods: class_table_new() }
    }

    /// Registers a native function under `name`. A new name gets the next
    /// index; a name that is already there keeps its index and gets the new
    /// arity and code.
    fn add_builtin(&mut self, name: &'static str, arity: Arity, f: BuiltinFunction)
        requires
            old(self).wf(),
        ensures
            final(self).wf(),
            final(self).functions() == spec_insert(
                old(self).functions(),
                name@,
                NativeEntry { arity, native: Native::Function(f) },
            ),
            final(self).class_count() == old(self).class_count(),
            forall|c: int|
                0 <= c < old(self).class_count() ==> final(self).class_name(c) == old(
                    self,
                ).class_name(c) && final(self).class_methods(c) == old(self).class_methods(c),
    {
        let entry = NativeEntry { arity, native: Native::Function(f) };
        proof {
            lemma_insert_cases(native_entries(self.functions), name@, entry);
        }
        native_table_insert(&mut self.functions, name.to_owned(), entry);
    }

    /// Registers a native method of the class `classname` under
    /// `method_name`. A new class gets the next class index, a new method of
    /// a class the next method index of that class.
    fn add_method(&mut self, classname: &str, method_name: &str, arity: Arity, f: BuiltinMethod)
        requires
            old(self).wf(),
        ensures
            final(self).wf(),
            final(self).functions() == old(self).functions(),
            position(old(self).class_names(), classname@) is None ==> {
                &&& final(self).class_count() == old(self).class_count() + 1
                &&& final(self).class_name(old(self).class_count() as int) == classname@
                &&& final(self).class_methods(old(self).class_count() as int) == seq![
                    (method_name@, NativeEntry { arity, native: Native::Method(f) }),
                ]
                &&& forall|c: int|
                    0 <= c < old(self).class_count() ==> final(self).class_name(c) == old(
                        self,
                    ).class_name(c) && final(self).class_methods(c) == old(self).class_methods(c)
            },
            position(old(self).class_names(), classname@) matches Some(k) ==> {
                &&& final(self).class_count() == old(self).class_count()
                &&& final(self).class_methods(k) == spec_insert(
                    old(self).class_methods(k),
                    method_name@,
                    NativeEntry { arity, native: Native::Method(f) },
                )
                &&& forall|c: int|
                    0 <= c < old(self).class_count() ==> final(self).class_name(c) == old(
                        self,
                    ).class_name(c) && (c != k ==> final(self).class_methods(c) == old(
                        self,
                    ).class_methods(c))
            },
    {
        let entry = NativeEntry { arity, native: Native::Method(f) };
        let ghost before = class_entries(self.methods);
        let ghost names = self.class_names();
        proof {
            lemma_position(names, classname@);
            assert forall|i: int| 0 <= i < before.len() implies (#[trigger] before[i]).0
                == names[i] by {}
        }
        let former = class_table_insert(&mut self.methods, classname.to_owned(), native_table_new());
        let mut table = match former {
            Some(table) => table,
            None => native_table_new(),
        };
        let ghost middle = class_entries(self.methods);
        proof {
            lemma_insert_cases(native_entries(table), method_name@, entry);
        }
        native_table_insert(&mut table, method_name.to_owned(), entry);
        class_table_insert(&mut self.methods, classname.to_owned(), table);
        proof {
            let after = class_entries(self.methods);
            match position(names, classname@) {
                Some(k) => {
                    assert(before[k].0 == classname@);
                    assert(middle[k].0 == classname@);
                    assert(after =~= before.update(k, (classname@, table)));
                },
                None => {
                    assert(no_key(before, classname@)) by {
                        assert forall|i: int| 0 <= i < before.len() implies (#[trigger] before[i]).0
                            != classname@ by {
                            assert(names[i] == before[i].0);
                        }
                    }
                    assert(middle[before.len() as int].0 == classname@);
                    assert(after =~= before.push((classname@, table)));
                },
            }
            assert(self.class_names() =~= if position(names, classname@) is Some {
                names
            } else {
                names.push(classname@)
            });
        }
    }

    /// The class names, in the order of their indices.
    pub open spec fn class_names(&self) -> Seq<Seq<char>> {
        Seq::new(self.class_count(), |c: int| self.class_name(c))
    }

    /// The names of the native functions, in the order of their indices.
    pub open spec fn function_names(&self) -> Seq<Seq<char>> {
        keys(self.functions())
    }

    pub fn get_builtin_arity(&self, idx: usize) -> (arity: Option<Arity>)
        ensures
            arity == self.spec_builtin_arity(idx),
    {
        match native_table_get_index(&self.functions, idx) {
            Some((_, entry)) => Some(entry.arity),
            None => None,
        }
    }

    pub fn get_method_arity(&self, class_idx: usize, method_idx: usize) -> (arity: Option<Arity>)
        ensures
            arity == self.spec_method_arity(class_idx, method_idx),
    {
        match class_table_get_index(&self.methods, class_idx) {
            Some((_, table)) => match native_table_get_index(table, method_idx) {
                Some((_, entry)) => Some(entry.arity),
                None => None,
            },
            None => None,
        }
    }

    /// The native method at index `method_idx` of the class at index
    /// `class_idx`: the class name, the method name, the arity and the code.
    pub fn get_method(&self, class_idx: usize, method_idx: usize) -> (found: Option<
        (&str, &str, Arity, BuiltinMethod),
    >)
        requires
            self.wf(),
        ensures
            found is Some == (class_idx < self.class_count() && method_idx < self.class_methods(
                class_idx as int,
            ).len()),
            found matches Some((class_name, method_name, arity, method)) ==> {
                &&& class_name@ == self.class_name(class_idx as int)
                &&& method_name@ == self.class_methods(class_idx as int)[method_idx as int].0
                &&& self.class_methods(class_idx as int)[method_idx as int].1 == (NativeEntry {
                    arity,
                    native: Native::Method(method),
                })
            },
    {
        match class_table_get_index(&self.methods, class_idx) {
            Some((class_name, table)) => match native_table_get_index(table, method_idx) {
                Some((method_name, entry)) => match entry.native {
                    Native::Method(method) => Some(
                        (class_name.as_str(), method_name.as_str(), entry.arity, method),
                    ),
                    Native::Function(_) => None,
                },
                None => None,
            },
            None => None,
        }
    }

    /// What applying the native function at index `idx` to `args` comes to:
    /// a failure where there is no such function, an arity mismatch where
    /// its arity does not admit the number of arguments, and else what the
    /// function returns.
    pub open spec fn spec_apply_builtin(&self, idx: usize, args: Seq<Value>, vm: &VM) -> Applied {
        if idx >= self.functions().len() {
            Applied::Failed("could not find builtin with index "@ + decimal(idx as nat))
        } else if !self.functions()[idx as int].1.arity.spec_accepts(args.len()) {
            Applied::ArityMismatch {
                provided: args.len() as usize,
                expected: self.functions()[idx as int].1.arity,
            }
        } else {
            match self.functions()[idx as int].1.native {
                Native::Function(f) => spec_native_function(f, args, vm),
                Native::Method(_) => Applied::Failed("not a function"@),
            }
        }
    }

    /// Applies the native function at index `idx`. The machine is left as it was.
    pub fn apply_builtin(&self, idx: usize, args: Vec<Value>, vm: &mut VM) -> (result: Result<
        Value,
        BuiltinError,
    >)
        ensures
            *final(vm) == *old(vm),
            applied(result) == self.spec_apply_builtin(idx, args@, old(vm)),
    {
        match native_table_get_index(&self.functions, idx) {
            Some((_, entry)) => {
                match check_arity(entry.arity, args.len()) {
                    Err(e) => {
                        return Err(e);
                    },
                    Ok(_) => {},
                }
                match entry.native {
                    Native::Function(f) => apply_native_function(f, &args, vm),
                    Native::Method(_) => Err(BuiltinError::Other(String::from_str("not a function"))),
                }
            },
            None => {
                let place = render_u64(idx as u64);
                Err(BuiltinError::Other(join2("could not find builtin with index ", place.as_str())))
            },
        }
    }

    /// What applying a native method to `args` comes to, for the object it
    /// was looked up on: a failure where there is no such method, an arity
    /// mismatch where its arity does not admit the number of arguments, and
    /// else what the method returns.
    pub open spec fn spec_apply_method(
        &self,
        class_idx: usize,
        method_idx: usize,
        self_ref: Value,
        args: Seq<Value>,
    ) -> Applied {
        if !(class_idx < self.class_count() && method_idx < self.class_methods(
            class_idx as int,
        ).len()) {
            Applied::Failed(
                "failed to find method with class idx "@ + decimal(class_idx as nat)
                    + " and method idx "@ + decimal(method_idx as nat),
            )
        } else if !self.class_methods(class_idx as int)[method_idx as int].1.arity.spec_accepts(
            args.len(),
        ) {
            Applied::ArityMismatch {
                provided: args.len() as usize,
                expected: self.class_methods(class_idx as int)[method_idx as int].1.arity,
            }
        } else {
            match self.class_methods(class_idx as int)[method_idx as int].1.native {
                Native::Method(m) => spec_native_method(m, self_ref, args),
                Native::Function(_) => Applied::Failed("not a method"@),
            }
        }
    }

    /// Applies a native method. The machine is left as it was.
    pub fn apply_method(
        &self,
        class_idx: usize,
        method_idx: usize,
        self_ref: Value,
        args: Vec<Value>,
        vm: &mut VM,
    ) -> (result: Result<Value, BuiltinError>)
        requires
            self.wf(),
        ensures
            *final(vm) == *old(vm),
            applied(result) == self.spec_apply_method(class_idx, method_idx, self_ref, args@),
    {
        match self.get_method(class_idx, method_idx) {
            Some((_, _, arity, method)) => {
                match check_arity(arity, args.len()) {
                    Err(e) => {
                        return Err(e);
                    },
                    Ok(_) => {},
                }
                apply_native_method(method, self_ref, &args)
            },
            None => {
                let class_place = render_u64(class_idx as u64);
                let method_place = render_u64(method_idx as u64);
                let mut text = join2("failed to find method with class idx ", class_place.as_str());
                text.append(" and method idx ");
                text.append(method_place.as_str());
                Err(BuiltinError::Other(text))
            },
        }
    }

    /// The value that names the native function `name`.
    pub fn get_builtin(&self, name: &str) -> (found: Option<Value>)
        requires
            self.wf(),
        ensures
            found == match position(self.function_names(), name@) {
                Some(idx) => Some(Value::Builtin(idx as usize)),
                None => None,
            },
            found matches Some(Value::Builtin(idx)) ==> position(self.function_names(), name@)
                == Some(idx as int),
    {
        proof {
            lemma_names(native_entries(self.functions), name@);
        }
        match native_table_get_full(&self.functions, name) {
            Some((idx, _, _)) => Some(Value::Builtin(idx)),
            None => None,
        }
    }

    /// Looks up the native method `method_name` of the type of `object` and,
    /// where there is one, stores it together with the object on the heap.
    pub fn bind_method(&self, object: Value, method_name: &str, context: &mut VM) -> (bound: Option<
        Value,
    >)
        requires
            self.wf(),
            old(context).gc.wf(),
        ensures
            final(context).gc.wf(),
            final(context).builtins == old(context).builtins,
            final(context).stack == old(context).stack,
            final(context).frames == old(context).frames,
            final(context).globals == old(context).globals,
            final(context).stack_limit == old(context).stack_limit,
            final(context).output == old(context).output,
            self.spec_find_method(object.spec_type_string(), method_name@) is None ==> bound is None
                && final(context).gc == old(context).gc,
            self.spec_find_method(object.spec_type_string(), method_name@) matches Some(
                (class_idx, method_idx),
            ) ==> {
                &&& bound == Some(Value::BoundMethod(old(context).gc.next_handle()))
                &&& final(context).gc.contains(old(context).gc.next_handle())
                &&& final(context).gc.object(old(context).gc.next_handle())
                    == OwnedObjectItem::BoundMethod(
                    BoundMethod { self_object: object, class_idx, method_idx },
                )
                &&& final(context).gc.grown_from(&old(context).gc)
            },
    {
        match self.find_method(object.type_string(), method_name) {
            Some((class_idx, method_idx)) => {
                let bound = context.gc.store(
                    OwnedObjectItem::BoundMethod(
                        BoundMethod { self_object: object, class_idx, method_idx },
                    ),
                );
                Some(bound)
            },
            None => None,
        }
    }

    /// The indices of the class `class_name` and of its method `method_name`.
    pub open spec fn spec_find_method(&self, class_name: Seq<char>, method_name: Seq<char>) -> Option<
        (usize, usize),
    > {
        match position(self.class_names(), class_name) {
            Some(c) => match position(keys(self.class_methods(c)), method_name) {
                Some(m) => Some((c as usize, m as usize)),
                None => None,
            },
            None => None,
        }
    }

    pub fn find_method(&self, class_name: &str, method_name: &str) -> (found: Option<(usize, usize)>)
        requires
            self.wf(),
        ensures
            found == self.spec_find_method(class_name@, method_name@),
    {
        proof {
            lemma_names(class_entries(self.methods), class_name@);
            assert(keys(class_entries(self.methods)) =~= self.class_names());
        }
        match class_table_get_full(&self.methods, class_name) {
            Some((class_idx, _, table)) => {
                proof {
                    lemma_names(native_entries(*table), method_name@);
                }
                match native_table_get_full(table, method_name) {
                    Some((method_idx, _, _)) => Some((class_idx, method_idx)),
                    None => None,
                }
            },
            None => None,
        }
    }

    /// The name of the native function at index `idx`.
    pub fn get_builtin_name(&self, idx: usize) -> (name: Option<&str>)
        ensures
            name is Some == (idx < self.functions().len()),
            name is Some ==> name->Some_0@ == self.functions()[idx as int].0,
    {
        match native_table_get_index(&self.functions, idx) {
            Some((name, _)) => Some(name.as_str()),
            None => None,
        }
    }

    /// The class name and the method name of a native method, joined by a dot.
    pub fn get_method_name(&self, class_idx: usize, method_idx: usize) -> (name: Option<String>)
        requires
            self.wf(),
        ensures
            name is Some == (class_idx < self.class_count() && method_idx < self.class_methods(
                class_idx as int,
            ).len()),
            name is Some ==> name->Some_0@ == self.class_name(class_idx as int) + "."@
                + self.class_methods(class_idx as int)[method_idx as int].0,
    {
        match self.get_method(class_idx, method_idx) {
            Some((class_name, method_name, _, _)) => {
                let mut name = join2(class_name, ".");
                name.append(method_name);
                Some(name)
            },
            None => None,
        }
    }
}

/// With distinct keys, a key stands at its position and nowhere else.
proof fn lemma_names<V>(entries: Seq<(Seq<char>, V)>, key: Seq<char>)
    requires
        distinct_keys(entries),
    ensures
        position(keys(entries), key) is None <==> no_key(entries, key),
        forall|i: int|
            0 <= i < entries.len() && (#[trigger] entries[i]).0 == key ==> position(
                keys(entries),
                key,
            ) == Some(i),
{
    lemma_position(keys(entries), key);
    assert forall|i: int| 0 <= i < entries.len() implies keys(entries)[i] == (
    #[trigger] entries[i]).0 by {}
    if position(keys(entries), key) is Some {
        let k = position(keys(entries), key)->Some_0;
        assert(entries[k].0 == key);
    }
    assert forall|i: int| 0 <= i < entries.len() && (#[trigger] entries[i]).0 == key implies position(
        keys(entries),
        key,
    ) == Some(i) by {
        let k = position(keys(entries), key)->Some_0;
        assert(keys(entries)[i] == key);
        assert(entries[k].0 == key);
        if k < i {
            assert(entries[k].0 != entries[i].0);
        } else if i < k {
            assert(keys(entries)[i] != key);
        }
    }
}

/// The registry with the native functions and methods of the language:
/// `sum`, `int`, `list`, `arity` and `is_vararg`, in this order, and for the
/// class `Int` the methods `abs` and `_mod`.
pub fn builtin_factory() -> (map: BuiltinMap)
    ensures
        map.wf(),
        map.functions() == seq![
            ("sum"@, NativeEntry { arity: Arity::AtLeast(0), native: Native::Function(BuiltinFunction::Sum) }),
            ("int"@, NativeEntry { arity: Arity::Exact(1), native: Native::Function(BuiltinFunction::Int) }),
            ("list"@, NativeEntry { arity: Arity::AtLeast(0), native: Native::Function(BuiltinFunction::List) }),
            ("arity"@, NativeEntry { arity: Arity::Exact(1), native: Native::Function(BuiltinFunction::Arity) }),
            ("is_vararg"@, NativeEntry { arity: Arity::Exact(1), native: Native::Function(BuiltinFunction::IsVararg) }),
        ],
        map.class_count() == 1,
        map.class_name(0) == "Int"@,
        map.class_methods(0) == seq![
            ("abs"@, NativeEntry { arity: Arity::Exact(0), native: Native::Method(BuiltinMethod::IntAbs) }),
            ("_mod"@, NativeEntry { arity: Arity::Exact(1), native: Native::Method(BuiltinMethod::IntMod) }),
        ],
{
    let mut map = BuiltinMap::new();
    proof {
        reveal_strlit("sum");
        reveal_strlit("int");
        reveal_strlit("list");
        reveal_strlit("arity");
        reveal_strlit("is_vararg");
        reveal_strlit("abs");
        reveal_strlit("_mod");
        reveal_strlit("Int");
        assert("sum"@[0] == 's' && "int"@[0] == 'i' && "list"@[0] == 'l' && "arity"@[0] == 'a');
        assert("is_vararg"@.len() == 9 && "int"@.len() == 3 && "is_vararg"@[0] == 'i');
        assert("abs"@[0] == 'a' && "_mod"@[0] == '_');
    }
    let ghost e0 = map.functions();
    proof {
        lemma_position(keys(e0), "sum"@);
    }
    map.add_builtin("sum", Arity::AtLeast(0), BuiltinFunction::Sum);
    let ghost e1 = map.functions();
    proof {
        lemma_position(keys(e1), "int"@);
        assert(keys(e1)[0] == "sum"@);
    }
    map.add_builtin("int", Arity::Exact(1), BuiltinFunction::Int);
    let ghost e2 = map.functions();
    proof {
        lemma_position(keys(e2), "list"@);
        assert(keys(e2)[0] == "sum"@);
        assert(keys(e2)[1] == "int"@);
    }
    map.add_builtin("list", Arity::AtLeast(0), BuiltinFunction::List);
    let ghost e3 = map.functions();
    proof {
        lemma_position(keys(e3), "arity"@);
        assert(keys(e3)[0] == "sum"@);
        assert(keys(e3)[1] == "int"@);
        assert(keys(e3)[2] == "list"@);
    }
    map.add_builtin("arity", Arity::Exact(1), BuiltinFunction::Arity);
    let ghost e4 = map.functions();
    proof {
        lemma_position(keys(e4), "is_vararg"@);
        assert(keys(e4)[0] == "sum"@);
        assert(keys(e4)[1] == "int"@);
        assert(keys(e4)[2] == "list"@);
        assert(keys(e4)[3] == "arity"@);
    }
    map.add_builtin("is_vararg", Arity::Exact(1), BuiltinFunction::IsVararg);
    proof {
        assert(map.class_names() =~= Seq::<Seq<char>>::empty());
    }
    map.add_method("Int", "abs", Arity::Exact(0), BuiltinMethod::IntAbs);
    let ghost m1 = map.class_methods(0);
    proof {
        assert(map.class_names() =~= seq!["Int"@]);
        lemma_position(map.class_names(), "Int"@);
        assert(map.class_names()[0] == "Int"@);
        lemma_position(keys(m1), "_mod"@);
        assert(keys(m1)[0] == "abs"@);
    }
    map.add_method("Int", "_mod", Arity::Exact(1), BuiltinMethod::IntMod);
    proof {
        assert(map.functions() =~= seq![
            ("sum"@, NativeEntry { arity: Arity::AtLeast(0), native: Native::Function(BuiltinFunction::Sum) }),
            ("int"@, NativeEntry { arity: Arity::Exact(1), native: Native::Function(BuiltinFunction::Int) }),
            ("list"@, NativeEntry { arity: Arity::AtLeast(0), native: Native::Function(BuiltinFunction::List) }),
            ("arity"@, NativeEntry { arity: Arity::Exact(1), native: Native::Function(BuiltinFunction::Arity) }),
            ("is_vararg"@, NativeEntry { arity: Arity::Exact(1), native: Native::Function(BuiltinFunction::IsVararg) }),
        ]);
        assert(map.class_methods(0) =~= seq![
            ("abs"@, NativeEntry { arity: Arity::Exact(0), native: Native::Method(BuiltinMethod::IntAbs) }),
            ("_mod"@, NativeEntry { arity: Arity::Exact(1), native: Native::Method(BuiltinMethod::IntMod) }),
        ]);
    }
    map
}

} // verus!
