use minilang::data::gc::GC;
use minilang::data::objects::{Closure, Instance, OwnedObjectItem, PartialApp, Value};
use minilang::execution::arith::{int_abs, int_add, int_div, int_mul, int_pow, int_rem, int_sub};
use minilang::execution::arity::Arity;
use minilang::execution::builtins::builtin_factory;
use minilang::execution::chunk::{Chunk, Opcode};
use minilang::execution::vm::{RuntimeErrorKind, VM};

fn chunk_of(code: Vec<Opcode>, constants: Vec<Value>, arity: Arity) -> Chunk {
    let mut chunk = Chunk::new();
    for opcode in code {
        chunk.emit(opcode, 1);
    }
    chunk.constants = constants;
    chunk.arity = arity;
    chunk
}

fn function(gc: &mut GC, code: Vec<Opcode>, constants: Vec<Value>, arity: Arity) -> Value {
    gc.store(OwnedObjectItem::Function(chunk_of(code, constants, arity)))
}

#[test]
fn frame_bases_stay_within_the_stack_after_every_instruction() {
    let builtins = builtin_factory();
    let mut gc = GC::default_gc();
    let inner = function(
        &mut gc,
        vec![Opcode::LoadLocal(1), Opcode::LoadImmediateInt(1), Opcode::Add, Opcode::Return],
        vec![],
        Arity::Exact(1),
    );
    let outer = function(
        &mut gc,
        vec![
            Opcode::LoadConst(0),
            Opcode::LoadImmediateInt(41),
            Opcode::Call(1),
            Opcode::Return,
        ],
        vec![inner],
        Arity::Exact(0),
    );
    let mut vm = VM::new(gc, &builtins);
    vm.push(outer).unwrap();
    vm.call(0).unwrap();
    let mut steps = 0;
    while !vm.frames.is_empty() {
        vm.step().unwrap();
        steps += 1;
        for frame in vm.frames.iter() {
            assert!(frame.base <= vm.stack.len());
            assert!(frame.ip <= frame.code_len);
        }
    }
    assert_eq!(steps, 8);
    assert_eq!(vm.stack, vec![Value::Int(42)]);
}

#[test]
fn run_returns_the_value_of_the_entry_function() {
    let builtins = builtin_factory();
    let mut gc = GC::default_gc();
    let entry = function(
        &mut gc,
        vec![
            Opcode::LoadImmediateInt(6),
            Opcode::LoadImmediateInt(7),
            Opcode::Mul,
            Opcode::Return,
        ],
        vec![],
        Arity::Exact(0),
    );
    let mut vm = VM::new(gc, &builtins);
    assert_eq!(vm.run(entry).ok(), Some(Value::Int(42)));
    assert!(vm.stack.is_empty());
    assert!(vm.frames.is_empty());
}

#[test]
fn failure_names_function_and_instruction() {
    let builtins = builtin_factory();
    let mut gc = GC::default_gc();
    let entry = function(
        &mut gc,
        vec![
            Opcode::LoadImmediateInt(1),
            Opcode::LoadImmediateInt(0),
            Opcode::Div,
            Opcode::Return,
        ],
        vec![],
        Arity::Exact(0),
    );
    let mut vm = VM::new(gc, &builtins);
    let error = vm.run(entry).unwrap_err();
    assert!(matches!(error.kind, RuntimeErrorKind::DivisionByZero));
    assert_eq!(error.chunk, entry);
    assert_eq!(error.opcode_index, 2);
    assert_eq!(error.place(&vm.gc), Some((Opcode::Div, 1)));
    assert_eq!(error.describe(&vm.gc), "error DivisionByZero at instruction Div\nat line 1");
}

#[test]
fn operand_stack_limit_is_a_stack_overflow() {
    let builtins = builtin_factory();
    let mut gc = GC::default_gc();
    let entry = function(
        &mut gc,
        vec![
            Opcode::LoadImmediateInt(1),
            Opcode::LoadImmediateInt(2),
            Opcode::LoadImmediateInt(3),
            Opcode::Return,
        ],
        vec![],
        Arity::Exact(0),
    );
    let mut vm = VM::new(gc, &builtins);
    vm.override_stack_limit(3);
    let error = vm.run(entry).unwrap_err();
    assert!(matches!(error.kind, RuntimeErrorKind::StackOverflow));
    assert_eq!(error.opcode_index, 2);
    vm.override_stack_limit(4);
    assert_eq!(vm.run(entry).ok(), Some(Value::Int(3)));
}

#[test]
fn jump_past_the_end_is_invalid_bytecode() {
    let builtins = builtin_factory();
    let mut gc = GC::default_gc();
    let entry = function(&mut gc, vec![Opcode::Jump(5), Opcode::Return], vec![], Arity::Exact(0));
    let mut vm = VM::new(gc, &builtins);
    let error = vm.run(entry).unwrap_err();
    assert!(matches!(error.kind, RuntimeErrorKind::InvalidBytecode));
}

#[test]
fn missing_operand_is_invalid_bytecode() {
    let builtins = builtin_factory();
    let mut gc = GC::default_gc();
    let entry = function(&mut gc, vec![Opcode::Add, Opcode::Return], vec![], Arity::Exact(0));
    let mut vm = VM::new(gc, &builtins);
    let error = vm.run(entry).unwrap_err();
    assert!(matches!(error.kind, RuntimeErrorKind::InvalidBytecode));
}

#[test]
fn local_slot_beyond_the_frame_is_a_frame_overflow() {
    let builtins = builtin_factory();
    let mut gc = GC::default_gc();
    let entry = function(&mut gc, vec![Opcode::LoadLocal(7), Opcode::Return], vec![], Arity::Exact(0));
    let mut vm = VM::new(gc, &builtins);
    let error = vm.run(entry).unwrap_err();
    assert!(matches!(error.kind, RuntimeErrorKind::FrameOverflow));
}

#[test]
fn unknown_builtin_index_fails() {
    let builtins = builtin_factory();
    let mut gc = GC::default_gc();
    let entry = function(&mut gc, vec![Opcode::LoadBuiltin(99), Opcode::Return], vec![], Arity::Exact(0));
    let mut vm = VM::new(gc, &builtins);
    let error = vm.run(entry).unwrap_err();
    assert!(matches!(error.kind, RuntimeErrorKind::UnknownBuiltin));
}

#[test]
fn collection_keeps_what_roots_reach_and_frees_the_rest() {
    let mut gc = GC::default_gc();
    let text = gc.store(OwnedObjectItem::Str("kept".to_string()));
    let cell = gc.store(OwnedObjectItem::Cell(text));
    let list = gc.store(OwnedObjectItem::List(vec![Value::Int(1), cell]));
    let lost = gc.store(OwnedObjectItem::Str("lost".to_string()));
    let lost_cell = gc.store(OwnedObjectItem::Cell(lost));
    assert_eq!(
        (text, cell, list, lost, lost_cell),
        (Value::Str(0), Value::Cell(1), Value::List(2), Value::Str(3), Value::Cell(4))
    );
    gc.collect(&vec![list, Value::Int(5)]);
    assert!(matches!(gc.get(0), Some(OwnedObjectItem::Str(s)) if s == "kept"));
    assert!(matches!(gc.get(1), Some(OwnedObjectItem::Cell(Value::Str(0)))));
    assert!(matches!(gc.get(2), Some(OwnedObjectItem::List(items)) if items.len() == 2));
    assert!(gc.get(3).is_none());
    assert!(gc.get(4).is_none());
    assert_eq!(gc.allocations, 0);
    let again = gc.store(OwnedObjectItem::Cell(Value::Nothing));
    assert!(again == Value::Cell(3) || again == Value::Cell(4));
    assert!(matches!(gc.get(2), Some(OwnedObjectItem::List(items)) if items[1] == Value::Cell(1)));
}

#[test]
fn collection_follows_cycles_and_every_kind_of_object() {
    let mut gc = GC::default_gc();
    let a = gc.store(OwnedObjectItem::Cell(Value::Nothing));
    let b = gc.store(OwnedObjectItem::Cell(a));
    gc.replace(0, OwnedObjectItem::Cell(b));
    let body = gc.store(OwnedObjectItem::Function(chunk_of(vec![Opcode::Return], vec![a], Arity::Exact(0))));
    let closure = gc.store(OwnedObjectItem::Closure(Closure { function: 2, upvalues: vec![] }));
    let partial = gc.store(OwnedObjectItem::Partial(PartialApp {
        callee: closure,
        bound_args: vec![None, Some(Value::Int(1))],
    }));
    let unreachable = gc.store(OwnedObjectItem::StructInstance(Instance { descriptor: 99, fields: vec![] }));
    assert_eq!(body, Value::Function(2));
    assert_eq!(unreachable, Value::StructInstance(5));
    gc.collect(&vec![partial]);
    for handle in 0..5 {
        assert!(gc.get(handle).is_some(), "object {} is gone", handle);
    }
    assert!(gc.get(5).is_none());
    gc.collect(&vec![]);
    for handle in 0..6 {
        assert!(gc.get(handle).is_none());
    }
}

#[test]
fn collection_is_due_at_the_threshold() {
    let mut gc = GC::default_gc();
    gc.threshold = 2;
    assert!(!gc.should_collect());
    gc.store(OwnedObjectItem::Cell(Value::Nothing));
    assert!(!gc.should_collect());
    gc.store(OwnedObjectItem::Cell(Value::Nothing));
    assert!(gc.should_collect());
    gc.collect(&vec![]);
    assert!(!gc.should_collect());
}

#[test]
fn cell_write_is_read_through_every_value_that_names_the_cell() {
    let builtins = builtin_factory();
    let mut gc = GC::default_gc();
    let entry = function(
        &mut gc,
        vec![
            Opcode::LoadImmediateInt(1),
            Opcode::MakeCell,
            Opcode::LoadLocal(1),
            Opcode::LoadImmediateInt(9),
            Opcode::LoadLocal(2),
            Opcode::StoreCell,
            Opcode::LoadCell,
            Opcode::Return,
        ],
        vec![],
        Arity::Exact(0),
    );
    let mut vm = VM::new(gc, &builtins);
    assert_eq!(vm.run(entry).ok(), Some(Value::Int(9)));
}

#[test]
fn exact_arity_is_checked_before_the_frame_is_entered() {
    let builtins = builtin_factory();
    let mut gc = GC::default_gc();
    let callee = function(&mut gc, vec![Opcode::LoadNothing, Opcode::Return], vec![], Arity::Exact(2));
    let mut vm = VM::new(gc, &builtins);
    vm.push(callee).unwrap();
    vm.push(Value::Int(1)).unwrap();
    match vm.call(1) {
        Err(RuntimeErrorKind::ArityMismatch { provided, expected }) => {
            assert_eq!(provided, 1);
            assert_eq!(expected, Arity::Exact(2));
        }
        other => panic!("expected an arity mismatch, got {:?}", other),
    }
    assert!(vm.frames.is_empty());
}

#[test]
fn arithmetic_wraps_at_the_bounds() {
    assert_eq!(int_add(i64::MAX, 1), i64::MIN);
    assert_eq!(int_sub(i64::MIN, 1), i64::MAX);
    assert_eq!(int_mul(i64::MAX, 2), -2);
    assert_eq!(int_div(7, 2), Some(3));
    assert_eq!(int_div(-7, 2), Some(-3));
    assert_eq!(int_div(7, -2), Some(-3));
    assert_eq!(int_div(i64::MIN, -1), Some(i64::MIN));
    assert_eq!(int_div(1, 0), None);
    assert_eq!(int_rem(7, 2), Some(1));
    assert_eq!(int_rem(-7, 2), Some(-1));
    assert_eq!(int_rem(7, -2), Some(1));
    assert_eq!(int_rem(i64::MIN, -1), Some(0));
    assert_eq!(int_rem(1, 0), None);
    assert_eq!(int_abs(-5), 5);
    assert_eq!(int_abs(i64::MIN), i64::MIN);
    assert_eq!(int_pow(2, 10), 1024);
    assert_eq!(int_pow(3, 0), 1);
    assert_eq!(int_pow(-2, 3), -8);
    assert_eq!(int_pow(2, 64), 0);
    assert_eq!(int_pow(3, 41), 3i64.wrapping_pow(41));
}

#[test]
fn opcodes_read_as_name_and_operands() {
    assert_eq!(Opcode::Print.to_string(), "Print");
    assert_eq!(Opcode::LoadConst(3).to_string(), "LoadConst[3]");
    assert_eq!(Opcode::LoadImmediateInt(-12).to_string(), "LoadImmediateInt[-12]");
    assert_eq!(Opcode::MakeClosure(2, 10).to_string(), "MakeClosure[2, 10]");
    assert_eq!(Opcode::Call(65535).to_string(), "Call[65535]");
    assert_eq!(Opcode::Add.to_string(), "Add");
}

#[test]
fn new_chunk_is_empty() {
    let chunk = Chunk::new();
    assert!(chunk.constants.is_empty());
    assert!(chunk.code.is_empty());
    assert!(chunk.opcode_to_line.is_empty());
    assert_eq!(chunk.arity, Arity::Exact(0));
    assert_eq!(chunk.name, "");
    let mut chunk = chunk;
    chunk.emit(Opcode::Return, 7);
    assert_eq!(chunk.code, vec![Opcode::Return]);
    assert_eq!(chunk.opcode_to_line, vec![7]);
}

#[test]
fn arity_accepts_as_declared() {
    assert!(Arity::Exact(2).accepts(2));
    assert!(!Arity::Exact(2).accepts(1));
    assert!(!Arity::Exact(2).accepts(3));
    assert!(Arity::AtLeast(2).accepts(2));
    assert!(Arity::AtLeast(2).accepts(9));
    assert!(!Arity::AtLeast(2).accepts(1));
    assert_eq!(Arity::Exact(3).count(), 3);
    assert!(Arity::AtLeast(0).is_vararg());
    assert!(!Arity::Exact(0).is_vararg());
    assert_eq!(Arity::Exact(3).to_string(), "3");
    assert_eq!(Arity::AtLeast(1).to_string(), "at least 1");
}
