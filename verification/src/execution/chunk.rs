use vstd::prelude::*;
use crate::data::objects::Value;
use crate::execution::arity::Arity;
use crate::text::{decimal, join2, render_i64, render_u64, signed_decimal};
use vstd::string::StringExecFns;

verus! {

/// One instruction of the stack machine. Indices and counts are sixteen bits wide;
/// jump distances count instructions forward from the instruction after the jump.
#[derive(Clone, Copy, Debug, PartialEq, Eq, Structural)]
pub enum Opcode {
    LoadConst(u16),
    LoadImmediateInt(i16),
    LoadNothing,
    LoadHole,
    LoadLocal(u16),
    StoreLocal(u16),
    LoadUpvalue(u16),
    StoreUpvalue(u16),
    LoadGlobal(u16),
    StoreGlobal(u16),
    LoadBuiltin(u16),
    MakeCell,
    LoadCell,
    StoreCell,
    Pop(u16),
    Add,
    Sub,
    Mul,
    Div,
    Mod,
    Power,
    Eq,
    Ne,
    Lt,
    Le,
    Gt,
    Ge,
    And,
    Or,
    Not,
    Jump(u16),
    JumpIfFalse(u16),
    Call(u16),
    PartialCall(u16),
    MakeClosure(u16, u16),
    GetProperty(u16),
    SetProperty(u16),
    HasProperty(u16),
    SetMethod(u16),
    NewStruct(u16, u16),
    Print,
    Assert,
    Return,
}

/// The name of an instruction with one operand, and the operand in
/// square brackets.
pub open spec fn with_operand(name: Seq<char>, operand: Seq<char>) -> Seq<char> {
    name + "["@ + operand + "]"@
}

/// The name of an instruction with two operands, and the operands in
/// square brackets.
pub open spec fn with_operands(name: Seq<char>, first: Seq<char>, second: Seq<char>) -> Seq<char> {
    name + "["@ + first + ", "@ + second + "]"@
}

fn one(name: &str, operand: u16) -> (text: String)
    ensures
        text@ == with_operand(name@, decimal(operand as nat)),
{
    let mut text = join2(name, "[");
    text.append(render_u64(operand as u64).as_str());
    text.append("]");
    text
}

fn two(name: &str, first: u16, second: u16) -> (text: String)
    ensures
        text@ == with_operands(name@, decimal(first as nat), decimal(second as nat)),
{
    let mut text = join2(name, "[");
    text.append(render_u64(first as u64).as_str());
    text.append(", ");
    text.append(render_u64(second as u64).as_str());
    text.append("]");
    text
}

impl Opcode {
    /// How an instruction reads: its name, and its operands in square
    /// brackets where it has any.
    pub open spec fn spec_to_string(self) -> Seq<char> {
        match self {
            Opcode::LoadConst(a) => with_operand("LoadConst"@, decimal(a as nat)),
            Opcode::LoadImmediateInt(a) => with_operand(
                "LoadImmediateInt"@,
                signed_decimal(a as int),
            ),
            Opcode::LoadNothing => "LoadNothing"@,
            Opcode::LoadHole => "LoadHole"@,
            Opcode::LoadLocal(a) => with_operand("LoadLocal"@, decimal(a as nat)),
            Opcode::StoreLocal(a) => with_operand("StoreLocal"@, decimal(a as nat)),
            Opcode::LoadUpvalue(a) => with_operand("LoadUpvalue"@, decimal(a as nat)),
            Opcode::StoreUpvalue(a) => with_operand("StoreUpvalue"@, decimal(a as nat)),
            Opcode::LoadGlobal(a) => with_operand("LoadGlobal"@, decimal(a as nat)),
            Opcode::StoreGlobal(a) => with_operand("StoreGlobal"@, decimal(a as nat)),
            Opcode::LoadBuiltin(a) => with_operand("LoadBuiltin"@, decimal(a as nat)),
            Opcode::MakeCell => "MakeCell"@,
            Opcode::LoadCell => "LoadCell"@,
            Opcode::StoreCell => "StoreCell"@,
            Opcode::Pop(a) => with_operand("Pop"@, decimal(a as nat)),
            Opcode::Add => "Add"@,
            Opcode::Sub => "Sub"@,
            Opcode::Mul => "Mul"@,
            Opcode::Div => "Div"@,
            Opcode::Mod => "Mod"@,
            Opcode::Power => "Power"@,
            Opcode::Eq => "Eq"@,
            Opcode::Ne => "Ne"@,
            Opcode::Lt => "Lt"@,
            Opcode::Le => "Le"@,
            Opcode::Gt => "Gt"@,
            Opcode::Ge => "Ge"@,
            Opcode::And => "And"@,
            Opcode::Or => "Or"@,
            Opcode::Not => "Not"@,
            Opcode::Jump(a) => with_operand("Jump"@, decimal(a as nat)),
            Opcode::JumpIfFalse(a) => with_operand("JumpIfFalse"@, decimal(a as nat)),
            Opcode::Call(a) => with_operand("Call"@, decimal(a as nat)),
            Opcode::PartialCall(a) => with_operand("PartialCall"@, decimal(a as nat)),
            Opcode::MakeClosure(a, b) => with_operands(
                "MakeClosure"@,
                decimal(a as nat),
                decimal(b as nat),
            ),
            Opcode::GetProperty(a) => with_operand("GetProperty"@, decimal(a as nat)),
            Opcode::SetProperty(a) => with_operand("SetProperty"@, decimal(a as nat)),
            Opcode::HasProperty(a) => with_operand("HasProperty"@, decimal(a as nat)),
            Opcode::SetMethod(a) => with_operand("SetMethod"@, decimal(a as nat)),
            Opcode::NewStruct(a, b) => with_operands(
                "NewStruct"@,
                decimal(a as nat),
                decimal(b as nat),
            ),
            Opcode::Print => "Print"@,
            Opcode::Assert => "Assert"@,
            Opcode::Return => "Return"@,
        }
    }

    pub fn to_string(self) -> (text: String)
        ensures
            text@ == self.spec_to_string(),
    {
        match self {
            Opcode::LoadConst(a) => one("LoadConst", a),
            Opcode::LoadImmediateInt(a) => {
                let mut text = join2("LoadImmediateInt", "[");
                text.append(render_i64(a as i64).as_str());
                text.append("]");
                text
            },
            Opcode::LoadNothing => String::from_str("LoadNothing"),
            Opcode::LoadHole => String::from_str("LoadHole"),
            Opcode::LoadLocal(a) => one("LoadLocal", a),
            Opcode::StoreLocal(a) => one("StoreLocal", a),
            Opcode::LoadUpvalue(a) => one("LoadUpvalue", a),
            Opcode::StoreUpvalue(a) => one("StoreUpvalue", a),
            Opcode::LoadGlobal(a) => one("LoadGlobal", a),
            Opcode::StoreGlobal(a) => one("StoreGlobal", a),
            Opcode::LoadBuiltin(a) => one("LoadBuiltin", a),
            Opcode::MakeCell => String::from_str("MakeCell"),
            Opcode::LoadCell => String::from_str("LoadCell"),
            Opcode::StoreCell => String::from_str("StoreCell"),
            Opcode::Pop(a) => one("Pop", a),
            Opcode::Add => String::from_str("Add"),
            Opcode::Sub => String::from_str("Sub"),
            Opcode::Mul => String::from_str("Mul"),
            Opcode::Div => String::from_str("Div"),
            Opcode::Mod => String::from_str("Mod"),
            Opcode::Power => String::from_str("Power"),
            Opcode::Eq => String::from_str("Eq"),
            Opcode::Ne => String::from_str("Ne"),
            Opcode::Lt => String::from_str("Lt"),
            Opcode::Le => String::from_str("Le"),
            Opcode::Gt => String::from_str("Gt"),
            Opcode::Ge => String::from_str("Ge"),
            Opcode::And => String::from_str("And"),
            Opcode::Or => String::from_str("Or"),
            Opcode::Not => String::from_str("Not"),
            Opcode::Jump(a) => one("Jump", a),
            Opcode::JumpIfFalse(a) => one("JumpIfFalse", a),
            Opcode::Call(a) => one("Call", a),
            Opcode::PartialCall(a) => one("PartialCall", a),
            Opcode::MakeClosure(a, b) => two("MakeClosure", a, b),
            Opcode::GetProperty(a) => one("GetProperty", a),
            Opcode::SetProperty(a) => one("SetProperty", a),
            Opcode::HasProperty(a) => one("HasProperty", a),
            Opcode::SetMethod(a) => one("SetMethod", a),
            Opcode::NewStruct(a, b) => two("NewStruct", a, b),
            Opcode::Print => String::from_str("Print"),
            Opcode::Assert => String::from_str("Assert"),
            Opcode::Return => String::from_str("Return"),
        }
    }
}

/// Where a closure finds one captured binding when it is made: a slot of the
/// enclosing frame, or a slot of the enclosing closure's own captured bindings.
#[derive(Clone, Copy, Debug, PartialEq, Eq, Structural)]
pub struct UpvalueDescriptor {
    pub slot: u16,
    pub from_enclosing_upvalues: bool,
}

/// A function body: instructions, the constants they refer to, and for each
/// instruction the source line it came from.
#[derive(Debug)]
pub struct Chunk {
    pub constants: Vec<Value>,
    pub code: Vec<Opcode>,
    pub opcode_to_line: Vec<u32>,
    pub arity: Arity,
    pub name: String,
    pub upvalues_descriptor: Vec<UpvalueDescriptor>,
}

impl Chunk {
    /// Every instruction has its line.
    pub open spec fn wf(&self) -> bool {
        self.code@.len() == self.opcode_to_line@.len()
    }

    /// An empty chunk that takes no arguments and has no name.
    pub fn new() -> (chunk: Chunk)
        ensures
            chunk.constants@ == Seq::<Value>::empty(),
            chunk.code@ == Seq::<Opcode>::empty(),
            chunk.opcode_to_line@ == Seq::<u32>::empty(),
            chunk.arity == Arity::Exact(0),
            chunk.name@ == Seq::<char>::empty(),
            chunk.upvalues_descriptor@ == Seq::<UpvalueDescriptor>::empty(),
            chunk.wf(),
    {
        Chunk {
            constants: Vec::new(),
            code: Vec::new(),
            opcode_to_line: Vec::new(),
            arity: Arity::Exact(0),
            name: String::new(),
            upvalues_descriptor: Vec::new(),
        }
    }

    /// Appends one instruction together with the source line it stands for.
    pub fn emit(&mut self, opcode: Opcode, line: u32)
        requires
            old(self).wf(),
        ensures
            final(self).wf(),
            final(self).code@ == old(self).code@.push(opcode),
            final(self).opcode_to_line@ == old(self).opcode_to_line@.push(line),
            final(self).constants == old(self).constants,
            final(self).arity == old(self).arity,
            final(self).name == old(self).name,
            final(self).upvalues_descriptor == old(self).upvalues_descriptor,
    {
        self.code.push(opcode);
        self.opcode_to_line.push(line);
    }
}

} // verus!
