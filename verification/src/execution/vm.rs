use vstd::prelude::*;
use crate::data::gc::GC;
use crate::data::objects::{OwnedObjectItem, Value};
use crate::execution::arity::Arity;
use crate::execution::builtins::{lemma_position, position, BuiltinMap};
use crate::execution::partial::{count_holes, holes};
use crate::execution::chunk::{Chunk, Opcode};
use crate::text::{join2, render_i64, signed_decimal};
use vstd::string::StringExecFns;
use crate::execution::arith::{
    int_add, int_div, int_mul, int_pow, int_rem, int_sub, truncated_div, truncated_rem, wrap,
};
use vstd::arithmetic::power::pow;

verus! {

/// The default limit on the number of values on the operand stack.
pub const DEFAULT_STACK_LIMIT: usize = 512;

/// The limit on the number of call frames.
pub const FRAME_LIMIT: usize = 64;

/// The limit on the number of instructions of a function that can be called.
pub const CODE_LIMIT: usize = 0xffff_ffff;

/// One activation of a function: the function object and the number of its
/// instructions, the index of the next instruction, the stack slot that
/// holds the callee (the arguments and locals follow it), and the bindings
/// that the closure captured.
#[derive(Debug)]
pub struct CallFrame {
    pub function: usize,
    pub code_len: usize,
    pub ip: usize,
    pub base: usize,
    pub upvalues: Vec<Value>,
}

/// What went wrong at run time.
#[derive(Debug)]
pub enum RuntimeErrorKind {
    /// An operation was applied to a value of a type that it does not take.
    RuntimeTypeError,
    /// A callable was given a number of arguments that its arity rejects.
    ArityMismatch { provided: usize, expected: Arity },
    UnknownProperty,
    UnknownGlobal,
    UnknownBuiltin,
    AssertionFailed,
    DivisionByZero,
    /// The operand stack or the call-frame stack is full.
    StackOverflow,
    /// A local slot lies beyond the values of its frame.
    FrameOverflow,
    /// A builtin failed with the given text.
    BuiltinFailed(String),
    /// The instructions do not make sense: an index out of range, an
    /// operand that is missing, a jump past the end.
    InvalidBytecode,
}

impl RuntimeErrorKind {
    /// How a kind of failure reads in a message.
    pub open spec fn spec_to_string(&self) -> Seq<char> {
        match self {
            RuntimeErrorKind::RuntimeTypeError => "RuntimeTypeError"@,
            RuntimeErrorKind::ArityMismatch { provided, expected } => "ArityMismatch: expected "@
                + expected.spec_to_string() + " args but got "@ + crate::text::decimal(
                *provided as nat,
            ),
            RuntimeErrorKind::UnknownProperty => "UnknownProperty"@,
            RuntimeErrorKind::UnknownGlobal => "UnknownGlobal"@,
            RuntimeErrorKind::UnknownBuiltin => "UnknownBuiltin"@,
            RuntimeErrorKind::AssertionFailed => "AssertionFailed"@,
            RuntimeErrorKind::DivisionByZero => "DivisionByZero"@,
            RuntimeErrorKind::StackOverflow => "StackOverflow"@,
            RuntimeErrorKind::FrameOverflow => "FrameOverflow"@,
            RuntimeErrorKind::BuiltinFailed(text) => "BuiltinFailed: "@ + text@,
            RuntimeErrorKind::InvalidBytecode => "InvalidBytecode"@,
        }
    }

    pub fn to_string(&self) -> (text: String)
        ensures
            text@ == self.spec_to_string(),
    {
        match self {
            RuntimeErrorKind::RuntimeTypeError => String::from_str("RuntimeTypeError"),
            RuntimeErrorKind::ArityMismatch { provided, expected } => {
                let mut text = join2(
                    "ArityMismatch: expected ",
                    expected.to_string().as_str(),
                );
                text.append(" args but got ");
                text.append(crate::text::render_u64(*provided as u64).as_str());
                text
            },
            RuntimeErrorKind::UnknownProperty => String::from_str("UnknownProperty"),
            RuntimeErrorKind::UnknownGlobal => String::from_str("UnknownGlobal"),
            RuntimeErrorKind::UnknownBuiltin => String::from_str("UnknownBuiltin"),
            RuntimeErrorKind::AssertionFailed => String::from_str("AssertionFailed"),
            RuntimeErrorKind::DivisionByZero => String::from_str("DivisionByZero"),
            RuntimeErrorKind::StackOverflow => String::from_str("StackOverflow"),
            RuntimeErrorKind::FrameOverflow => String::from_str("FrameOverflow"),
            RuntimeErrorKind::BuiltinFailed(text) => join2("BuiltinFailed: ", text.as_str()),
            RuntimeErrorKind::InvalidBytecode => String::from_str("InvalidBytecode"),
        }
    }
}

/// A failure at run time: what went wrong, in which function, at which
/// instruction.
#[derive(Debug)]
pub struct RuntimeError {
    pub kind: RuntimeErrorKind,
    pub chunk: Value,
    pub opcode_index: usize,
}

/// The virtual machine.
pub struct VM<'a> {
    pub gc: GC,
    pub builtins: &'a BuiltinMap,
    pub stack: Vec<Value>,
    pub frames: Vec<CallFrame>,
    pub globals: Vec<(String, Value)>,
    pub stack_limit: usize,
    pub output: Vec<String>,
}

/// The number of instructions that a frame has before it.
pub open spec fn remaining(frame: CallFrame) -> int {
    frame.code_len - frame.ip
}

/// A bound on the number of instructions that the machine can still run:
/// the instructions that each frame has before it, weighted so that one
/// instruction of a frame outweighs all that the frames above it can have.
pub open spec fn fuel(frames: Seq<CallFrame>) -> int
    decreases frames.len(),
{
    if frames.len() == 0 {
        0
    } else {
        fuel(frames.drop_last()) + remaining(frames.last()) * pow(
            CODE_LIMIT + 1,
            (FRAME_LIMIT + 1 - frames.len()) as nat,
        )
    }
}

impl RuntimeError {
    /// The instruction that failed and the source line that it is recorded
    /// under, where the failure names an instruction of a function on the heap.
    pub open spec fn spec_place(&self, gc: &GC) -> Option<(Opcode, u32)> {
        match self.chunk {
            Value::Function(h) => if gc.contains(h) {
                match gc.object(h) {
                    OwnedObjectItem::Function(chunk) => if self.opcode_index < chunk.code@.len()
                        && self.opcode_index < chunk.opcode_to_line@.len() {
                        Some(
                            (
                                chunk.code@[self.opcode_index as int],
                                chunk.opcode_to_line@[self.opcode_index as int],
                            ),
                        )
                    } else {
                        None
                    },
                    _ => None,
                }
            } else {
                None
            },
            _ => None,
        }
    }

    pub fn place(&self, gc: &GC) -> (place: Option<(Opcode, u32)>)
        ensures
            place == self.spec_place(gc),
    {
        match self.chunk {
            Value::Function(h) => match gc.get(h) {
                Some(OwnedObjectItem::Function(chunk)) => {
                    if self.opcode_index < chunk.code.len() && self.opcode_index
                        < chunk.opcode_to_line.len() {
                        Some((chunk.code[self.opcode_index], chunk.opcode_to_line[self.opcode_index]))
                    } else {
                        None
                    }
                },
                _ => None,
            },
            _ => None,
        }
    }

    /// The message for a failure: what went wrong, and the instruction and
    /// the source line where they are known.
    pub open spec fn spec_describe(&self, gc: &GC) -> Seq<char> {
        match self.spec_place(gc) {
            Some((opcode, line)) => "error "@ + self.kind.spec_to_string() + " at instruction "@
                + opcode.spec_to_string() + "\nat line "@ + crate::text::decimal(line as nat),
            None => "error "@ + self.kind.spec_to_string(),
        }
    }

    pub fn describe(&self, gc: &GC) -> (text: String)
        ensures
            text@ == self.spec_describe(gc),
    {
        let mut text = join2("error ", self.kind.to_string().as_str());
        match self.place(gc) {
            Some((opcode, line)) => {
                text.append(" at instruction ");
                text.append(opcode.to_string().as_str());
                text.append("\nat line ");
                text.append(crate::text::render_u64(line as u64).as_str());
            },
            None => {},
        }
        text
    }
}

/// What an arithmetic instruction makes of two integers: sums, differences
/// and products wrap around at the bounds of `i64`, quotients and remainders
/// round toward zero and fail for a zero divisor, and a power fails for a
/// negative exponent.
pub open spec fn arithmetic(opcode: Opcode, x: i64, y: i64) -> Result<i64, RuntimeErrorKind> {
    match opcode {
        Opcode::Add => Ok(wrap(x + y)),
        Opcode::Sub => Ok(wrap(x - y)),
        Opcode::Mul => Ok(wrap(x * y)),
        Opcode::Div => if y == 0 {
            Err(RuntimeErrorKind::DivisionByZero)
        } else {
            Ok(wrap(truncated_div(x as int, y as int)))
        },
        Opcode::Mod => if y == 0 {
            Err(RuntimeErrorKind::DivisionByZero)
        } else {
            Ok(wrap(truncated_rem(x as int, y as int)))
        },
        Opcode::Power => if y < 0 {
            Err(RuntimeErrorKind::RuntimeTypeError)
        } else {
            Ok(wrap(pow(x as int, y as nat)))
        },
        _ => Err(RuntimeErrorKind::InvalidBytecode),
    }
}

/// Computes what an arithmetic instruction makes of two integers.
pub fn apply_arithmetic(opcode: Opcode, x: i64, y: i64) -> (result: Result<i64, RuntimeErrorKind>)
    ensures
        result == arithmetic(opcode, x, y),
{
    match opcode {
        Opcode::Add => Ok(int_add(x, y)),
        Opcode::Sub => Ok(int_sub(x, y)),
        Opcode::Mul => Ok(int_mul(x, y)),
        Opcode::Div => match int_div(x, y) {
            Some(q) => Ok(q),
            None => Err(RuntimeErrorKind::DivisionByZero),
        },
        Opcode::Mod => match int_rem(x, y) {
            Some(r) => Ok(r),
            None => Err(RuntimeErrorKind::DivisionByZero),
        },
        Opcode::Power => if y < 0 {
            Err(RuntimeErrorKind::RuntimeTypeError)
        } else {
            Ok(int_pow(x, y as u64))
        },
        _ => Err(RuntimeErrorKind::InvalidBytecode),
    }
}

/// What an instruction with two operands makes of them. A comparison and a
/// logical instruction give one for true and zero for false; equality takes
/// any two values, the orderings and the arithmetic take integers.
pub open spec fn binary_result(opcode: Opcode, a: Value, b: Value) -> Result<
    Value,
    RuntimeErrorKind,
> {
    match opcode {
        Opcode::Eq => Ok(Value::spec_from_bool(a == b)),
        Opcode::Ne => Ok(Value::spec_from_bool(a != b)),
        Opcode::And => Ok(Value::spec_from_bool(a.spec_truthy() && b.spec_truthy())),
        Opcode::Or => Ok(Value::spec_from_bool(a.spec_truthy() || b.spec_truthy())),
        Opcode::Lt => match (a, b) {
            (Value::Int(x), Value::Int(y)) => Ok(Value::spec_from_bool(x < y)),
            _ => Err(RuntimeErrorKind::RuntimeTypeError),
        },
        Opcode::Le => match (a, b) {
            (Value::Int(x), Value::Int(y)) => Ok(Value::spec_from_bool(x <= y)),
            _ => Err(RuntimeErrorKind::RuntimeTypeError),
        },
        Opcode::Gt => match (a, b) {
            (Value::Int(x), Value::Int(y)) => Ok(Value::spec_from_bool(x > y)),
            _ => Err(RuntimeErrorKind::RuntimeTypeError),
        },
        Opcode::Ge => match (a, b) {
            (Value::Int(x), Value::Int(y)) => Ok(Value::spec_from_bool(x >= y)),
            _ => Err(RuntimeErrorKind::RuntimeTypeError),
        },
        _ => match (a, b) {
            (Value::Int(x), Value::Int(y)) => match arithmetic(opcode, x, y) {
                Ok(n) => Ok(Value::Int(n)),
                Err(kind) => Err(kind),
            },
            _ => Err(RuntimeErrorKind::RuntimeTypeError),
        },
    }
}

/// What an instruction with two operands makes of them.
pub fn apply_binary(opcode: Opcode, a: Value, b: Value) -> (result: Result<Value, RuntimeErrorKind>)
    ensures
        result == binary_result(opcode, a, b),
{
    match opcode {
        Opcode::Eq => Ok(Value::from_bool(a == b)),
        Opcode::Ne => Ok(Value::from_bool(a != b)),
        Opcode::And => Ok(Value::from_bool(a.truthy() && b.truthy())),
        Opcode::Or => Ok(Value::from_bool(a.truthy() || b.truthy())),
        Opcode::Lt => match (a, b) {
            (Value::Int(x), Value::Int(y)) => Ok(Value::from_bool(x < y)),
            _ => Err(RuntimeErrorKind::RuntimeTypeError),
        },
        Opcode::Le => match (a, b) {
            (Value::Int(x), Value::Int(y)) => Ok(Value::from_bool(x <= y)),
            _ => Err(RuntimeErrorKind::RuntimeTypeError),
        },
        Opcode::Gt => match (a, b) {
            (Value::Int(x), Value::Int(y)) => Ok(Value::from_bool(x > y)),
            _ => Err(RuntimeErrorKind::RuntimeTypeError),
        },
        Opcode::Ge => match (a, b) {
            (Value::Int(x), Value::Int(y)) => Ok(Value::from_bool(x >= y)),
            _ => Err(RuntimeErrorKind::RuntimeTypeError),
        },
        _ => match (a, b) {
            (Value::Int(x), Value::Int(y)) => match apply_arithmetic(opcode, x, y) {
                Ok(n) => Ok(Value::Int(n)),
                Err(kind) => Err(kind),
            },
            _ => Err(RuntimeErrorKind::RuntimeTypeError),
        },
    }
}

impl<'a> VM<'a> {
    /// The heap and the registry are well formed, the frames are no more
    /// than the limit, each frame's callee slot is on the stack, the callee
    /// slots lie one above the other, and no frame is past its last
    /// instruction.
    pub open spec fn wf(&self) -> bool {
        &&& self.gc.wf()
        &&& self.builtins.wf()
        &&& self.frames@.len() <= FRAME_LIMIT
        &&& forall|i: int|
            0 <= i < self.frames@.len() ==> (#[trigger] self.frames@[i]).base < self.stack@.len()
        &&& forall|i: int, j: int|
            0 <= i < j < self.frames@.len() ==> (#[trigger] self.frames@[i]).base < (
            #[trigger] self.frames@[j]).base
        &&& forall|i: int|
            0 <= i < self.frames@.len() ==> (#[trigger] self.frames@[i]).ip
                <= self.frames@[i].code_len <= CODE_LIMIT
    }

    /// A machine with an empty stack, no frames, no globals and the default
    /// stack limit.
    pub fn new(gc: GC, builtins: &'a BuiltinMap) -> (vm: VM<'a>)
        requires
            gc.wf(),
            builtins.wf(),
        ensures
            vm.wf(),
            vm.gc == gc,
            vm.builtins == builtins,
            vm.stack@.len() == 0,
            vm.frames@.len() == 0,
            vm.globals@.len() == 0,
            vm.output@.len() == 0,
            vm.stack_limit == DEFAULT_STACK_LIMIT,
    {
        VM {
            gc,
            builtins,
            stack: Vec::new(),
            frames: Vec::new(),
            globals: Vec::new(),
            stack_limit: DEFAULT_STACK_LIMIT,
            output: Vec::new(),
        }
    }

    /// Sets the limit on the number of values on the operand stack.
    pub fn override_stack_limit(&mut self, limit: usize)
        ensures
            final(self).stack_limit == limit,
            final(self).gc == old(self).gc,
            final(self).builtins == old(self).builtins,
            final(self).stack == old(self).stack,
            final(self).frames == old(self).frames,
            final(self).globals == old(self).globals,
            final(self).output == old(self).output,
    {
        self.stack_limit = limit;
    }

    /// Whether `self` differs from `before` in nothing but the stack.
    pub open spec fn only_stack_changed(&self, before: &VM) -> bool {
        &&& self.gc == before.gc
        &&& self.builtins == before.builtins
        &&& self.frames == before.frames
        &&& self.globals == before.globals
        &&& self.output == before.output
        &&& self.stack_limit == before.stack_limit
    }

    /// Whether `self` differs from `before` in nothing but the stack and the heap.
    pub open spec fn only_stack_and_heap_changed(&self, before: &VM) -> bool {
        &&& self.builtins == before.builtins
        &&& self.frames == before.frames
        &&& self.globals == before.globals
        &&& self.output == before.output
        &&& self.stack_limit == before.stack_limit
    }

    /// The first stack slot that the current frame may pop: the one above
    /// its callee slot.
    pub open spec fn operand_floor(&self) -> int {
        if self.frames@.len() > 0 {
            self.frames@.last().base + 1
        } else {
            0
        }
    }

    /// Pushes a value; fails where the stack has reached its limit.
    pub fn push(&mut self, value: Value) -> (result: Result<(), RuntimeErrorKind>)
        ensures
            old(self).stack@.len() < old(self).stack_limit ==> result is Ok && final(self).stack@
                == old(self).stack@.push(value) && final(self).only_stack_changed(old(self)),
            old(self).stack@.len() >= old(self).stack_limit ==> result == Err::<
                (),
                RuntimeErrorKind,
            >(RuntimeErrorKind::StackOverflow) && *final(self) == *old(self),
    {
        if self.stack.len() >= self.stack_limit {
            return Err(RuntimeErrorKind::StackOverflow);
        }
        self.stack.push(value);
        Ok(())
    }

    /// The body of the function that the current frame runs.
    pub open spec fn current_chunk(&self) -> Option<Chunk> {
        if self.frames@.len() > 0 && self.gc.contains(self.frames@.last().function) {
            match self.gc.object(self.frames@.last().function) {
                OwnedObjectItem::Function(chunk) => if chunk.code@.len()
                    == self.frames@.last().code_len {
                    Some(chunk)
                } else {
                    None
                },
                _ => None,
            }
        } else {
            None
        }
    }

    /// The instruction that the machine runs next.
    pub open spec fn current_opcode(&self) -> Option<Opcode> {
        match self.current_chunk() {
            Some(chunk) => if self.frames@.last().ip < chunk.code@.len() {
                Some(chunk.code@[self.frames@.last().ip as int])
            } else {
                None
            },
            None => None,
        }
    }

    /// The frames after the current one has moved on by `distance` instructions.
    pub open spec fn frames_advanced(&self, distance: int) -> Seq<CallFrame> {
        self.frames@.update(
            self.frames@.len() - 1,
            CallFrame {
                ip: (self.frames@.last().ip + distance) as usize,
                ..self.frames@.last()
            },
        )
    }

    /// Whether `self` is `before` with the current frame moved on by
    /// `distance` instructions.
    pub open spec fn advanced_from(&self, before: &VM, distance: int) -> bool {
        &&& self.gc == before.gc
        &&& self.builtins == before.builtins
        &&& self.stack == before.stack
        &&& self.frames@ == before.frames_advanced(distance)
        &&& self.globals == before.globals
        &&& self.output == before.output
        &&& self.stack_limit == before.stack_limit
    }

    /// Reads the next instruction and moves the current frame past it.
    pub fn fetch(&mut self) -> (result: Result<Opcode, RuntimeErrorKind>)
        requires
            old(self).wf(),
        ensures
            old(self).current_opcode() matches Some(opcode) ==> result == Ok::<
                Opcode,
                RuntimeErrorKind,
            >(opcode) && final(self).advanced_from(old(self), 1) && final(self).wf() && fuel(
                final(self).frames@,
            ) < fuel(old(self).frames@),
            old(self).current_opcode() is None ==> result == Err::<Opcode, RuntimeErrorKind>(
                RuntimeErrorKind::InvalidBytecode,
            ) && *final(self) == *old(self),
    {
        if self.frames.len() == 0 {
            return Err(RuntimeErrorKind::InvalidBytecode);
        }
        let top = self.frames.len() - 1;
        let ip = self.frames[top].ip;
        let opcode = match self.gc.get(self.frames[top].function) {
            Some(OwnedObjectItem::Function(chunk)) => {
                if chunk.code.len() != self.frames[top].code_len || ip >= chunk.code.len() {
                    return Err(RuntimeErrorKind::InvalidBytecode);
                }
                chunk.code[ip]
            },
            _ => {
                return Err(RuntimeErrorKind::InvalidBytecode);
            },
        };
        self.frames[top].ip = ip + 1;
        proof {
            assert(self.frames@ =~= old(self).frames_advanced(1));
            lemma_fuel_advance(old(self).frames@, 1);
        }
        Ok(opcode)
    }

    /// The names of the globals, in the order in which they were first stored.
    pub open spec fn global_names(&self) -> Seq<Seq<char>> {
        Seq::new(self.globals@.len(), |i: int| self.globals@[i].0@)
    }

    /// The value of the global `name`.
    pub open spec fn global(&self, name: Seq<char>) -> Option<Value> {
        match position(self.global_names(), name) {
            Some(i) => Some(self.globals@[i].1),
            None => None,
        }
    }

    /// Looks up a global by name.
    pub fn find_global(&self, name: &String) -> (found: Option<usize>)
        ensures
            found is Some == position(self.global_names(), name@) is Some,
            found is Some ==> found->Some_0 as int == position(self.global_names(), name@)->Some_0
                && found->Some_0 < self.globals@.len(),
    {
        let mut i: usize = 0;
        while i < self.globals.len()
            invariant
                i <= self.globals.len(),
                forall|j: int| 0 <= j < i ==> #[trigger] self.global_names()[j] != name@,
            decreases self.globals.len() - i,
        {
            if self.globals[i].0 == *name {
                proof {
                    lemma_position(self.global_names(), name@);
                    assert(self.global_names()[i as int] == name@);
                    if position(self.global_names(), name@) is Some {
                        let k = position(self.global_names(), name@)->Some_0;
                        if k < i {
                            assert(self.global_names()[k] != name@);
                        }
                    }
                }
                return Some(i);
            }
            assert(self.global_names()[i as int] != name@);
            i += 1;
        }
        proof {
            lemma_position(self.global_names(), name@);
            if position(self.global_names(), name@) is Some {
                let k = position(self.global_names(), name@)->Some_0;
                assert(self.global_names()[k] != name@);
            }
        }
        None
    }

    /// Whether the current frame has `k` values above its callee slot.
    pub open spec fn has_operands(&self, k: int) -> bool {
        self.stack@.len() - self.operand_floor() >= k
    }

    /// The value that lies `depth` below the top of the stack.
    pub open spec fn operand(&self, depth: int) -> Value {
        self.stack@[self.stack@.len() - 1 - depth]
    }

    /// What an instruction that only reads the machine and rewrites the top
    /// of the stack computes: the number of operands that it takes off the
    /// stack, and the value that it puts there, if any, or its failure.
    /// Nothing for the instructions that do more than that.
    pub open spec fn evaluation(&self, opcode: Opcode) -> Option<
        (int, Result<Option<Value>, RuntimeErrorKind>),
    > {
        match opcode {
            Opcode::LoadConst(ix) => Some(
                (
                    0,
                    match self.current_chunk() {
                        Some(chunk) => if ix < chunk.constants@.len() {
                            Ok(Some(chunk.constants@[ix as int]))
                        } else {
                            Err(RuntimeErrorKind::InvalidBytecode)
                        },
                        None => Err(RuntimeErrorKind::InvalidBytecode),
                    },
                ),
            ),
            Opcode::LoadImmediateInt(n) => Some((0, Ok(Some(Value::Int(n as i64))))),
            Opcode::LoadNothing => Some((0, Ok(Some(Value::Nothing)))),
            Opcode::LoadHole => Some((0, Ok(Some(Value::Hole)))),
            Opcode::LoadLocal(slot) => Some(
                (
                    0,
                    if self.frames@.len() > 0 && self.frames@.last().base + slot
                        < self.stack@.len() {
                        Ok(Some(self.stack@[self.frames@.last().base + slot]))
                    } else {
                        Err(RuntimeErrorKind::FrameOverflow)
                    },
                ),
            ),
            Opcode::LoadUpvalue(slot) => Some(
                (
                    0,
                    if self.frames@.len() > 0 && slot < self.frames@.last().upvalues@.len() {
                        Ok(Some(self.frames@.last().upvalues@[slot as int]))
                    } else {
                        Err(RuntimeErrorKind::InvalidBytecode)
                    },
                ),
            ),
            Opcode::LoadGlobal(ix) => Some(
                (
                    0,
                    match self.constant_text(ix) {
                        Some(name) => match self.global(name) {
                            Some(value) => Ok(Some(value)),
                            None => Err(RuntimeErrorKind::UnknownGlobal),
                        },
                        None => Err(RuntimeErrorKind::InvalidBytecode),
                    },
                ),
            ),
            Opcode::LoadBuiltin(ix) => Some(
                (
                    0,
                    if ix < self.builtins.functions().len() {
                        Ok(Some(Value::Builtin(ix as usize)))
                    } else {
                        Err(RuntimeErrorKind::UnknownBuiltin)
                    },
                ),
            ),
            Opcode::LoadCell => Some(
                (
                    1,
                    match self.cell_content(self.operand(0)) {
                        Some(content) => Ok(Some(content)),
                        None => Err(RuntimeErrorKind::RuntimeTypeError),
                    },
                ),
            ),
            Opcode::Pop(n) => Some((n as int, Ok(None))),
            Opcode::Not => Some((1, Ok(Some(Value::spec_from_bool(!self.operand(0).spec_truthy()))))),
            Opcode::Assert => Some(
                (
                    1,
                    if self.operand(0).spec_truthy() {
                        Ok(None)
                    } else {
                        Err(RuntimeErrorKind::AssertionFailed)
                    },
                ),
            ),
            Opcode::Add | Opcode::Sub | Opcode::Mul | Opcode::Div | Opcode::Mod | Opcode::Power
            | Opcode::Eq | Opcode::Ne | Opcode::Lt | Opcode::Le | Opcode::Gt | Opcode::Ge
            | Opcode::And | Opcode::Or => Some(
                (
                    2,
                    match binary_result(opcode, self.operand(1), self.operand(0)) {
                        Ok(value) => Ok(Some(value)),
                        Err(kind) => Err(kind),
                    },
                ),
            ),
            _ => None,
        }
    }

    /// The text of the string constant at index `ix` of the current function.
    pub open spec fn constant_text(&self, ix: u16) -> Option<Seq<char>> {
        match self.current_chunk() {
            Some(chunk) => if ix < chunk.constants@.len() {
                self.gc.spec_text(chunk.constants@[ix as int])
            } else {
                None
            },
            None => None,
        }
    }

    /// What the cell that a value names holds.
    pub open spec fn cell_content(&self, value: Value) -> Option<Value> {
        match value {
            Value::Cell(h) => if self.gc.contains(h) {
                match self.gc.object(h) {
                    OwnedObjectItem::Cell(content) => Some(content),
                    _ => None,
                }
            } else {
                None
            },
            _ => None,
        }
    }

    /// Whether `self` is what an evaluation makes of `before`: the operands
    /// are gone from the stack and the value, if any, is in their place.
    /// The machine fails where the frame lacks the operands, where the
    /// evaluation fails, and where the stack has no room for the value.
    pub open spec fn evaluated_from(
        &self,
        before: &VM,
        taken: int,
        outcome: Result<Option<Value>, RuntimeErrorKind>,
        result: Result<(), RuntimeErrorKind>,
    ) -> bool {
        if !before.has_operands(taken) {
            result == Err::<(), RuntimeErrorKind>(RuntimeErrorKind::InvalidBytecode)
        } else {
            match outcome {
                Err(kind) => result == Err::<(), RuntimeErrorKind>(kind),
                Ok(None) => result is Ok && self.only_stack_changed(before) && self.stack@
                    == before.stack@.subrange(0, before.stack@.len() - taken),
                Ok(Some(value)) => if taken == 0 && before.stack@.len() >= before.stack_limit {
                    result == Err::<(), RuntimeErrorKind>(RuntimeErrorKind::StackOverflow)
                } else {
                    result is Ok && self.only_stack_changed(before) && self.stack@
                        == before.stack@.subrange(0, before.stack@.len() - taken).push(value)
                },
            }
        }
    }

    /// The constant at index `ix` of the current function.
    pub fn constant(&self, ix: u16) -> (value: Option<Value>)
        ensures
            value == (match self.current_chunk() {
                Some(chunk) => if ix < chunk.constants@.len() {
                    Some(chunk.constants@[ix as int])
                } else {
                    None
                },
                None => None,
            }),
    {
        if self.frames.len() == 0 {
            return None;
        }
        let top = self.frames.len() - 1;
        match self.gc.get(self.frames[top].function) {
            Some(OwnedObjectItem::Function(chunk)) => {
                if chunk.code.len() == self.frames[top].code_len && (ix as usize)
                    < chunk.constants.len() {
                    Some(chunk.constants[ix as usize])
                } else {
                    None
                }
            },
            _ => None,
        }
    }

    /// Takes `taken` operands off the stack and puts `value` there, if any.
    fn rewrite_top(&mut self, taken: usize, value: Option<Value>) -> (result: Result<
        (),
        RuntimeErrorKind,
    >)
        requires
            old(self).has_operands(taken as int),
            old(self).wf(),
        ensures
            final(self).evaluated_from(old(self), taken as int, Ok(value), result),
            final(self).wf(),
    {
        let height = self.stack.len();
        match value {
            Some(v) => {
                if taken == 0 && height >= self.stack_limit {
                    return Err(RuntimeErrorKind::StackOverflow);
                }
                self.stack.truncate(height - taken);
                self.stack.push(v);
            },
            None => {
                self.stack.truncate(height - taken);
            },
        }
        Ok(())
    }

    /// Whether the current frame has `k` values above its callee slot.
    pub fn operands_available(&self, k: usize) -> (available: bool)
        requires
            self.wf(),
        ensures
            available == self.has_operands(k as int),
    {
        let height = self.stack.len();
        if self.frames.len() > 0 {
            let base = self.frames[self.frames.len() - 1].base;
            height - base - 1 >= k
        } else {
            height >= k
        }
    }

    /// Runs an instruction that only reads the machine and rewrites the top
    /// of the stack.
    pub fn evaluate(&mut self, opcode: Opcode) -> (result: Result<(), RuntimeErrorKind>)
        requires
            old(self).wf(),
            old(self).evaluation(opcode) is Some,
        ensures
            final(self).wf(),
            final(self).evaluated_from(
                old(self),
                old(self).evaluation(opcode)->Some_0.0,
                old(self).evaluation(opcode)->Some_0.1,
                result,
            ),
    {
        let height = self.stack.len();
        match opcode {
            Opcode::LoadConst(ix) => match self.constant(ix) {
                Some(value) => self.rewrite_top(0, Some(value)),
                None => Err(RuntimeErrorKind::InvalidBytecode),
            },
            Opcode::LoadImmediateInt(n) => self.rewrite_top(0, Some(Value::Int(n as i64))),
            Opcode::LoadNothing => self.rewrite_top(0, Some(Value::Nothing)),
            Opcode::LoadHole => self.rewrite_top(0, Some(Value::Hole)),
            Opcode::LoadLocal(slot) => {
                if self.frames.len() == 0 {
                    return Err(RuntimeErrorKind::FrameOverflow);
                }
                let base = self.frames[self.frames.len() - 1].base;
                if slot as usize >= height - base {
                    return Err(RuntimeErrorKind::FrameOverflow);
                }
                let value = self.stack[base + slot as usize];
                self.rewrite_top(0, Some(value))
            },
            Opcode::LoadUpvalue(slot) => {
                if self.frames.len() == 0 {
                    return Err(RuntimeErrorKind::InvalidBytecode);
                }
                let top = self.frames.len() - 1;
                if slot as usize >= self.frames[top].upvalues.len() {
                    return Err(RuntimeErrorKind::InvalidBytecode);
                }
                let value = self.frames[top].upvalues[slot as usize];
                self.rewrite_top(0, Some(value))
            },
            Opcode::LoadGlobal(ix) => {
                let found = match self.constant(ix) {
                    Some(constant) => match self.gc.text(constant) {
                        Some(name) => match self.find_global(name) {
                            Some(i) => Ok(self.globals[i].1),
                            None => Err(RuntimeErrorKind::UnknownGlobal),
                        },
                        None => Err(RuntimeErrorKind::InvalidBytecode),
                    },
                    None => Err(RuntimeErrorKind::InvalidBytecode),
                };
                match found {
                    Ok(value) => self.rewrite_top(0, Some(value)),
                    Err(kind) => Err(kind),
                }
            },
            Opcode::LoadBuiltin(ix) => match self.builtins.get_builtin_arity(ix as usize) {
                Some(_) => self.rewrite_top(0, Some(Value::Builtin(ix as usize))),
                None => Err(RuntimeErrorKind::UnknownBuiltin),
            },
            Opcode::LoadCell => {
                if !self.operands_available(1) {
                    return Err(RuntimeErrorKind::InvalidBytecode);
                }
                let content = match self.stack[height - 1] {
                    Value::Cell(h) => match self.gc.get(h) {
                        Some(OwnedObjectItem::Cell(content)) => Some(*content),
                        _ => None,
                    },
                    _ => None,
                };
                match content {
                    Some(value) => self.rewrite_top(1, Some(value)),
                    None => Err(RuntimeErrorKind::RuntimeTypeError),
                }
            },
            Opcode::Pop(n) => {
                if !self.operands_available(n as usize) {
                    return Err(RuntimeErrorKind::InvalidBytecode);
                }
                self.rewrite_top(n as usize, None)
            },
            Opcode::Not => {
                if !self.operands_available(1) {
                    return Err(RuntimeErrorKind::InvalidBytecode);
                }
                let value = Value::from_bool(!self.stack[height - 1].truthy());
                self.rewrite_top(1, Some(value))
            },
            Opcode::Assert => {
                if !self.operands_available(1) {
                    return Err(RuntimeErrorKind::InvalidBytecode);
                }
                if self.stack[height - 1].truthy() {
                    self.rewrite_top(1, None)
                } else {
                    Err(RuntimeErrorKind::AssertionFailed)
                }
            },
            _ => {
                if !self.operands_available(2) {
                    return Err(RuntimeErrorKind::InvalidBytecode);
                }
                match apply_binary(opcode, self.stack[height - 2], self.stack[height - 1]) {
                    Ok(value) => self.rewrite_top(2, Some(value)),
                    Err(kind) => Err(kind),
                }
            },
        }
    }

    /// How a value reads when it is printed: an integer as its decimal
    /// numeral, a string as its text, and any other value as the name of
    /// its type in angle brackets.
    pub open spec fn spec_display(&self, value: Value) -> Seq<char> {
        match value {
            Value::Int(n) => signed_decimal(n as int),
            _ => match self.gc.spec_text(value) {
                Some(text) => text,
                None => "<"@ + value.spec_type_string() + ">"@,
            },
        }
    }

    pub fn display(&self, value: Value) -> (text: String)
        ensures
            text@ == self.spec_display(value),
    {
        match value {
            Value::Int(n) => render_i64(n),
            _ => match self.gc.text(value) {
                Some(text) => text.clone(),
                None => {
                    let mut text = join2("<", value.type_string());
                    text.append(">");
                    text
                },
            },
        }
    }

    /// What `StoreLocal(slot)` does: the top value goes to the slot of the
    /// current frame and leaves the stack. It fails where the slot is not
    /// below the top.
    pub open spec fn store_local_effect(
        &self,
        before: &VM,
        slot: u16,
        result: Result<(), RuntimeErrorKind>,
    ) -> bool {
        if !before.has_operands(1) {
            result == Err::<(), RuntimeErrorKind>(RuntimeErrorKind::InvalidBytecode)
        } else if before.frames@.last().base + slot >= before.stack@.len() - 1 {
            result == Err::<(), RuntimeErrorKind>(RuntimeErrorKind::FrameOverflow)
        } else {
            result is Ok && self.only_stack_changed(before) && self.stack@
                == before.stack@.drop_last().update(
                before.frames@.last().base + slot,
                before.stack@.last(),
            )
        }
    }

    pub fn store_local(&mut self, slot: u16) -> (result: Result<(), RuntimeErrorKind>)
        requires
            old(self).wf(),
            old(self).frames@.len() > 0,
        ensures
            final(self).wf(),
            final(self).store_local_effect(old(self), slot, result),
    {
        if !self.operands_available(1) {
            return Err(RuntimeErrorKind::InvalidBytecode);
        }
        let height = self.stack.len();
        let base = self.frames[self.frames.len() - 1].base;
        if slot as usize >= height - 1 - base {
            return Err(RuntimeErrorKind::FrameOverflow);
        }
        let value = self.stack[height - 1];
        self.stack.truncate(height - 1);
        self.stack.set(base + slot as usize, value);
        assert(self.stack@ =~= old(self).stack@.drop_last().update(
            base + slot,
            old(self).stack@.last(),
        ));
        Ok(())
    }

    /// What writing `value` to the cell that `cell` names does, with `taken`
    /// operands leaving the stack: the cell holds the value and nothing
    /// else changes. It fails with a type error where `cell` names no cell.
    pub open spec fn store_cell_effect(
        &self,
        before: &VM,
        cell: Value,
        value: Value,
        taken: int,
        result: Result<(), RuntimeErrorKind>,
    ) -> bool {
        if before.cell_content(cell) is None {
            result == Err::<(), RuntimeErrorKind>(RuntimeErrorKind::RuntimeTypeError)
        } else {
            &&& result is Ok
            &&& self.only_stack_and_heap_changed(before)
            &&& self.stack@ == before.stack@.subrange(0, before.stack@.len() - taken)
            &&& self.gc.replaced_from(
                &before.gc,
                cell.spec_handle()->Some_0,
                OwnedObjectItem::Cell(value),
            )
        }
    }

    fn write_cell(&mut self, cell: Value, value: Value, taken: usize) -> (result: Result<
        (),
        RuntimeErrorKind,
    >)
        requires
            old(self).wf(),
            old(self).has_operands(taken as int),
        ensures
            final(self).wf(),
            final(self).store_cell_effect(old(self), cell, value, taken as int, result),
    {
        let h = match cell {
            Value::Cell(h) => match self.gc.get(h) {
                Some(OwnedObjectItem::Cell(_)) => h,
                _ => {
                    return Err(RuntimeErrorKind::RuntimeTypeError);
                },
            },
            _ => {
                return Err(RuntimeErrorKind::RuntimeTypeError);
            },
        };
        self.gc.replace(h, OwnedObjectItem::Cell(value));
        let height = self.stack.len();
        self.stack.truncate(height - taken);
        Ok(())
    }

    /// What `StoreUpvalue(slot)` does: the top value goes to the cell that
    /// the captured binding names and leaves the stack.
    pub open spec fn store_upvalue_effect(
        &self,
        before: &VM,
        slot: u16,
        result: Result<(), RuntimeErrorKind>,
    ) -> bool {
        if !before.has_operands(1) || slot >= before.frames@.last().upvalues@.len() {
            result == Err::<(), RuntimeErrorKind>(RuntimeErrorKind::InvalidBytecode)
        } else {
            self.store_cell_effect(
                before,
                before.frames@.last().upvalues@[slot as int],
                before.stack@.last(),
                1,
                result,
            )
        }
    }

    pub fn store_upvalue(&mut self, slot: u16) -> (result: Result<(), RuntimeErrorKind>)
        requires
            old(self).wf(),
            old(self).frames@.len() > 0,
        ensures
            final(self).wf(),
            final(self).store_upvalue_effect(old(self), slot, result),
    {
        if !self.operands_available(1) {
            return Err(RuntimeErrorKind::InvalidBytecode);
        }
        let top = self.frames.len() - 1;
        if slot as usize >= self.frames[top].upvalues.len() {
            return Err(RuntimeErrorKind::InvalidBytecode);
        }
        let cell = self.frames[top].upvalues[slot as usize];
        let value = self.stack[self.stack.len() - 1];
        self.write_cell(cell, value, 1)
    }

    /// What `StoreCell` does: the value below the top goes to the cell that
    /// the top value names, and both leave the stack.
    pub open spec fn store_cell_instruction_effect(
        &self,
        before: &VM,
        result: Result<(), RuntimeErrorKind>,
    ) -> bool {
        if !before.has_operands(2) {
            result == Err::<(), RuntimeErrorKind>(RuntimeErrorKind::InvalidBytecode)
        } else {
            self.store_cell_effect(before, before.operand(0), before.operand(1), 2, result)
        }
    }

    pub fn store_cell(&mut self) -> (result: Result<(), RuntimeErrorKind>)
        requires
            old(self).wf(),
        ensures
            final(self).wf(),
            final(self).store_cell_instruction_effect(old(self), result),
    {
        if !self.operands_available(2) {
            return Err(RuntimeErrorKind::InvalidBytecode);
        }
        let height = self.stack.len();
        let cell = self.stack[height - 1];
        let value = self.stack[height - 2];
        self.write_cell(cell, value, 2)
    }

    /// What `MakeCell` does: a new cell holds the top value, and the value
    /// that names the cell takes its place on the stack.
    pub open spec fn make_cell_effect(&self, before: &VM, result: Result<(), RuntimeErrorKind>) -> bool {
        if !before.has_operands(1) {
            result == Err::<(), RuntimeErrorKind>(RuntimeErrorKind::InvalidBytecode)
        } else {
            &&& result is Ok
            &&& self.only_stack_and_heap_changed(before)
            &&& self.gc.stored_from(&before.gc, OwnedObjectItem::Cell(before.stack@.last()))
            &&& self.stack@ == before.stack@.drop_last().push(Value::Cell(before.gc.next_handle()))
        }
    }

    pub fn make_cell(&mut self) -> (result: Result<(), RuntimeErrorKind>)
        requires
            old(self).wf(),
        ensures
            final(self).wf(),
            final(self).make_cell_effect(old(self), result),
    {
        if !self.operands_available(1) {
            return Err(RuntimeErrorKind::InvalidBytecode);
        }
        let height = self.stack.len();
        let value = self.stack[height - 1];
        let cell = self.gc.store(OwnedObjectItem::Cell(value));
        self.stack.set(height - 1, cell);
        assert(self.stack@ =~= old(self).stack@.drop_last().push(cell));
        Ok(())
    }

    /// The globals after `value` was stored under `name`: in the place of
    /// the global of that name, or last where there is none.
    pub open spec fn globals_with(&self, name: Seq<char>, value: Value) -> Seq<(Seq<char>, Value)> {
        match position(self.global_names(), name) {
            Some(i) => self.globals_view().update(i, (name, value)),
            None => self.globals_view().push((name, value)),
        }
    }

    /// The globals by name, in the order in which they were first stored.
    pub open spec fn globals_view(&self) -> Seq<(Seq<char>, Value)> {
        Seq::new(self.globals@.len(), |i: int| (self.globals@[i].0@, self.globals@[i].1))
    }

    /// What `StoreGlobal(ix)` does: the top value becomes the global named
    /// by the string constant at `ix` and leaves the stack.
    pub open spec fn store_global_effect(
        &self,
        before: &VM,
        ix: u16,
        result: Result<(), RuntimeErrorKind>,
    ) -> bool {
        if !before.has_operands(1) || before.constant_text(ix) is None {
            result == Err::<(), RuntimeErrorKind>(RuntimeErrorKind::InvalidBytecode)
        } else {
            &&& result is Ok
            &&& self.gc == before.gc
            &&& self.builtins == before.builtins
            &&& self.frames == before.frames
            &&& self.output == before.output
            &&& self.stack_limit == before.stack_limit
            &&& self.stack@ == before.stack@.drop_last()
            &&& self.globals_view() == before.globals_with(
                before.constant_text(ix)->Some_0,
                before.stack@.last(),
            )
        }
    }

    pub fn store_global(&mut self, ix: u16) -> (result: Result<(), RuntimeErrorKind>)
        requires
            old(self).wf(),
        ensures
            final(self).wf(),
            final(self).store_global_effect(old(self), ix, result),
    {
        if !self.operands_available(1) {
            return Err(RuntimeErrorKind::InvalidBytecode);
        }
        let name = match self.constant(ix) {
            Some(constant) => match self.gc.text(constant) {
                Some(name) => name.clone(),
                None => {
                    return Err(RuntimeErrorKind::InvalidBytecode);
                },
            },
            None => {
                return Err(RuntimeErrorKind::InvalidBytecode);
            },
        };
        let height = self.stack.len();
        let value = self.stack[height - 1];
        match self.find_global(&name) {
            Some(i) => {
                self.globals.set(i, (name, value));
                assert(self.globals_view() =~= old(self).globals_view().update(
                    i as int,
                    (name@, value),
                ));
            },
            None => {
                self.globals.push((name, value));
                assert(self.globals_view() =~= old(self).globals_view().push((name@, value)));
            },
        }
        self.stack.truncate(height - 1);
        Ok(())
    }

    /// What `Print` does: the top value leaves the stack and its text is
    /// added to the output.
    pub open spec fn print_effect(&self, before: &VM, result: Result<(), RuntimeErrorKind>) -> bool {
        if !before.has_operands(1) {
            result == Err::<(), RuntimeErrorKind>(RuntimeErrorKind::InvalidBytecode)
        } else {
            &&& result is Ok
            &&& self.gc == before.gc
            &&& self.builtins == before.builtins
            &&& self.frames == before.frames
            &&& self.globals == before.globals
            &&& self.stack_limit == before.stack_limit
            &&& self.stack@ == before.stack@.drop_last()
            &&& self.output@.len() == before.output@.len() + 1
            &&& self.output@.drop_last() == before.output@
            &&& self.output@.last()@ == before.spec_display(before.stack@.last())
        }
    }

    pub fn print(&mut self) -> (result: Result<(), RuntimeErrorKind>)
        requires
            old(self).wf(),
        ensures
            final(self).wf(),
            final(self).print_effect(old(self), result),
    {
        if !self.operands_available(1) {
            return Err(RuntimeErrorKind::InvalidBytecode);
        }
        let height = self.stack.len();
        let text = self.display(self.stack[height - 1]);
        self.output.push(text);
        self.stack.truncate(height - 1);
        assert(self.output@.drop_last() =~= old(self).output@);
        Ok(())
    }

    /// What a jump does: where `taken` operands can leave the stack and the
    /// target is no further than the end of the function, the operands
    /// leave, and the current frame moves on by `distance` instructions if
    /// `jumps` holds.
    pub open spec fn jump_effect(
        &self,
        before: &VM,
        distance: u16,
        taken: int,
        jumps: bool,
        result: Result<(), RuntimeErrorKind>,
    ) -> bool {
        if !before.has_operands(taken) || before.frames@.last().ip + distance
            > before.frames@.last().code_len {
            result == Err::<(), RuntimeErrorKind>(RuntimeErrorKind::InvalidBytecode)
        } else {
            &&& result is Ok
            &&& self.gc == before.gc
            &&& self.builtins == before.builtins
            &&& self.globals == before.globals
            &&& self.output == before.output
            &&& self.stack_limit == before.stack_limit
            &&& self.stack@ == before.stack@.subrange(0, before.stack@.len() - taken)
            &&& self.frames@ == if jumps {
                before.frames_advanced(distance as int)
            } else {
                before.frames@
            }
        }
    }

    /// What `Jump(distance)` and `JumpIfFalse(distance)` do. The second
    /// takes the top value off the stack and jumps where it counts as false.
    pub open spec fn jump_instruction_effect(
        &self,
        before: &VM,
        distance: u16,
        conditional: bool,
        result: Result<(), RuntimeErrorKind>,
    ) -> bool {
        if conditional {
            self.jump_effect(
                before,
                distance,
                1,
                before.has_operands(1) && !before.operand(0).spec_truthy(),
                result,
            )
        } else {
            self.jump_effect(before, distance, 0, true, result)
        }
    }

    pub fn jump(&mut self, distance: u16, conditional: bool) -> (result: Result<
        (),
        RuntimeErrorKind,
    >)
        requires
            old(self).wf(),
            old(self).frames@.len() > 0,
        ensures
            final(self).wf(),
            final(self).jump_instruction_effect(old(self), distance, conditional, result),
            result is Ok ==> fuel(final(self).frames@) <= fuel(old(self).frames@),
    {
        let top = self.frames.len() - 1;
        let ip = self.frames[top].ip;
        let height = self.stack.len();
        if conditional && !self.operands_available(1) {
            return Err(RuntimeErrorKind::InvalidBytecode);
        }
        if distance as usize > self.frames[top].code_len - ip {
            return Err(RuntimeErrorKind::InvalidBytecode);
        }
        let jumps = if conditional {
            let value = self.stack[height - 1];
            self.stack.truncate(height - 1);
            !value.truthy()
        } else {
            assert(self.stack@ =~= old(self).stack@.subrange(0, old(self).stack@.len() as int));
            true
        };
        if jumps {
            self.frames[top].ip = ip + distance as usize;
            proof {
                assert(self.frames@ =~= old(self).frames_advanced(distance as int));
                if distance > 0 {
                    lemma_fuel_advance(old(self).frames@, distance as int);
                } else {
                    assert(self.frames@ =~= old(self).frames@);
                }
            }
        }
        Ok(())
    }

    /// How many arguments a value takes when it is called; nothing for a
    /// value that cannot be called. A function has the arity of its body, a
    /// partial application takes exactly its empty slots, a builtin and a
    /// bound method have the arity that the registry keeps, and a struct
    /// descriptor takes one argument for each field.
    pub open spec fn spec_arity_of(&self, value: Value) -> Option<Arity> {
        match value {
            Value::Function(h) => if self.gc.contains(h) {
                match self.gc.object(h) {
                    OwnedObjectItem::Function(chunk) => Some(chunk.arity),
                    OwnedObjectItem::Closure(closure) => if self.gc.contains(closure.function) {
                        match self.gc.object(closure.function) {
                            OwnedObjectItem::Function(chunk) => Some(chunk.arity),
                            _ => None,
                        }
                    } else {
                        None
                    },
                    _ => None,
                }
            } else {
                None
            },
            Value::Partial(h) => if self.gc.contains(h) {
                match self.gc.object(h) {
                    OwnedObjectItem::Partial(partial) => Some(
                        Arity::Exact(holes(partial.bound_args@) as usize),
                    ),
                    _ => None,
                }
            } else {
                None
            },
            Value::Builtin(idx) => self.builtins.spec_builtin_arity(idx),
            Value::BoundMethod(h) => if self.gc.contains(h) {
                match self.gc.object(h) {
                    OwnedObjectItem::BoundMethod(bound) => self.builtins.spec_method_arity(
                        bound.class_idx,
                        bound.method_idx,
                    ),
                    _ => None,
                }
            } else {
                None
            },
            Value::StructDescriptor(h) => if self.gc.contains(h) {
                match self.gc.object(h) {
                    OwnedObjectItem::StructDescriptor(descriptor) => Some(
                        Arity::Exact(descriptor.fields@.len() as usize),
                    ),
                    _ => None,
                }
            } else {
                None
            },
            _ => None,
        }
    }

    pub fn arity_of(&self, value: Value) -> (arity: Option<Arity>)
        ensures
            arity == self.spec_arity_of(value),
    {
        match value {
            Value::Function(h) => match self.gc.get(h) {
                Some(OwnedObjectItem::Function(chunk)) => Some(chunk.arity),
                Some(OwnedObjectItem::Closure(closure)) => match self.gc.get(closure.function) {
                    Some(OwnedObjectItem::Function(chunk)) => Some(chunk.arity),
                    _ => None,
                },
                _ => None,
            },
            Value::Partial(h) => match self.gc.get(h) {
                Some(OwnedObjectItem::Partial(partial)) => Some(
                    Arity::Exact(count_holes(&partial.bound_args)),
                ),
                _ => None,
            },
            Value::Builtin(idx) => self.builtins.get_builtin_arity(idx),
            Value::BoundMethod(h) => match self.gc.get(h) {
                Some(OwnedObjectItem::BoundMethod(bound)) => self.builtins.get_method_arity(
                    bound.class_idx,
                    bound.method_idx,
                ),
                _ => None,
            },
            Value::StructDescriptor(h) => match self.gc.get(h) {
                Some(OwnedObjectItem::StructDescriptor(descriptor)) => Some(
                    Arity::Exact(descriptor.fields.len()),
                ),
                _ => None,
            },
            _ => None,
        }
    }
}

/// The weight of a frame's instructions is positive.
pub proof fn lemma_weight_positive(depth: nat)
    ensures
        pow(CODE_LIMIT + 1, depth) >= 1,
{
    vstd::arithmetic::power::lemma_pow_positive(CODE_LIMIT + 1, depth);
}

/// Moving the top frame on by `distance` instructions takes away that many
/// times its weight.
pub proof fn lemma_fuel_advance(frames: Seq<CallFrame>, distance: int)
    requires
        frames.len() > 0,
        frames.len() <= FRAME_LIMIT,
        distance >= 1,
        frames.last().ip + distance <= usize::MAX,
    ensures
        fuel(
            frames.update(
                frames.len() - 1,
                CallFrame { ip: (frames.last().ip + distance) as usize, ..frames.last() },
            ),
        ) <= fuel(frames) - distance,
        fuel(
            frames.update(
                frames.len() - 1,
                CallFrame { ip: (frames.last().ip + distance) as usize, ..frames.last() },
            ),
        ) == fuel(frames) - distance * pow(CODE_LIMIT + 1, (FRAME_LIMIT + 1 - frames.len()) as nat),
{
    let moved = frames.update(
        frames.len() - 1,
        CallFrame { ip: (frames.last().ip + distance) as usize, ..frames.last() },
    );
    let w = pow(CODE_LIMIT + 1, (FRAME_LIMIT + 1 - frames.len()) as nat);
    lemma_weight_positive((FRAME_LIMIT + 1 - frames.len()) as nat);
    assert(moved.drop_last() =~= frames.drop_last());
    assert(remaining(moved.last()) == remaining(frames.last()) - distance);
    assert((remaining(frames.last()) - distance) * w == remaining(frames.last()) * w - distance * w)
        by (nonlinear_arith);
    assert(distance * w >= distance) by (nonlinear_arith)
        requires
            w >= 1,
            distance >= 1,
    ;
}

} // verus!
