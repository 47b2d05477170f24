//! Bytecode: one-byte instructions with their operands, and the chunks
//! that hold them together with their constants and source spans.

use vstd::prelude::*;
use crate::error::Span;

verus! {

/// One instruction for the virtual machine.
#[derive(Debug, Clone, Copy, PartialEq, Eq, Structural)]
pub enum OpCode {
    /// Push constants[index].
    Constant,
    /// Push "nothing".
    Nil,
    /// Push true.
    True,
    /// Push false.
    False,
    /// Throw away the top value.
    Pop,
    /// Read a local slot.
    GetLocal,
    /// Write a local slot.
    SetLocal,
    /// Read a global by name.
    GetGlobal,
    /// Write a global by name.
    SetGlobal,
    /// Create a global by name.
    DefineGlobal,
    /// Read a captured variable.
    GetUpvalue,
    /// Write a captured variable.
    SetUpvalue,
    /// Close over a local leaving scope.
    CloseUpvalue,
    /// Read a variable by searching scopes at run time.
    GetVariable,
    /// Assign if found, else define in the current scope.
    StoreVariable,
    Add,
    Sub,
    Mul,
    Div,
    Negate,
    Not,
    Equal,
    NotEqual,
    Less,
    Greater,
    LessEqual,
    GreaterEqual,
    /// Entering an indented block.
    EnterScope,
    /// Leaving an indented block.
    ExitScope,
    /// Jump forward by an offset.
    Jump,
    /// Jump forward when the top value is falsy.
    JumpIfFalse,
    /// Jump backward by an offset.
    Loop,
    /// Call a function with N arguments.
    Call,
    /// Return to the caller.
    Return,
    /// Build a function value with its upvalues.
    Closure,
    /// Out(): print N values.
    Print,
    /// Build an array from N stack values.
    MakeArray,
    /// Pop end and start, push the range as an array.
    BuildRange,
    /// Pop index and array, push the element.
    GetIndex,
    /// Pop an array, push its length.
    ArrayLen,
}

/// The byte each instruction is stored as, in declaration order from 0.
pub open spec fn spec_encode(op: OpCode) -> u8 {
    match op {
        OpCode::Constant => 0,
        OpCode::Nil => 1,
        OpCode::True => 2,
        OpCode::False => 3,
        OpCode::Pop => 4,
        OpCode::GetLocal => 5,
        OpCode::SetLocal => 6,
        OpCode::GetGlobal => 7,
        OpCode::SetGlobal => 8,
        OpCode::DefineGlobal => 9,
        OpCode::GetUpvalue => 10,
        OpCode::SetUpvalue => 11,
        OpCode::CloseUpvalue => 12,
        OpCode::GetVariable => 13,
        OpCode::StoreVariable => 14,
        OpCode::Add => 15,
        OpCode::Sub => 16,
        OpCode::Mul => 17,
        OpCode::Div => 18,
        OpCode::Negate => 19,
        OpCode::Not => 20,
        OpCode::Equal => 21,
        OpCode::NotEqual => 22,
        OpCode::Less => 23,
        OpCode::Greater => 24,
        OpCode::LessEqual => 25,
        OpCode::GreaterEqual => 26,
        OpCode::EnterScope => 27,
        OpCode::ExitScope => 28,
        OpCode::Jump => 29,
        OpCode::JumpIfFalse => 30,
        OpCode::Loop => 31,
        OpCode::Call => 32,
        OpCode::Return => 33,
        OpCode::Closure => 34,
        OpCode::Print => 35,
        OpCode::MakeArray => 36,
        OpCode::BuildRange => 37,
        OpCode::GetIndex => 38,
        OpCode::ArrayLen => 39,
    }
}

/// The instruction a byte stands for; bytes past the table stand for none.
pub open spec fn spec_decode(byte: u8) -> Option<OpCode> {
    if byte == 0 {
        Some(OpCode::Constant)
    } else if byte == 1 {
        Some(OpCode::Nil)
    } else if byte == 2 {
        Some(OpCode::True)
    } else if byte == 3 {
        Some(OpCode::False)
    } else if byte == 4 {
        Some(OpCode::Pop)
    } else if byte == 5 {
        Some(OpCode::GetLocal)
    } else if byte == 6 {
        Some(OpCode::SetLocal)
    } else if byte == 7 {
        Some(OpCode::GetGlobal)
    } else if byte == 8 {
        Some(OpCode::SetGlobal)
    } else if byte == 9 {
        Some(OpCode::DefineGlobal)
    } else if byte == 10 {
        Some(OpCode::GetUpvalue)
    } else if byte == 11 {
        Some(OpCode::SetUpvalue)
    } else if byte == 12 {
        Some(OpCode::CloseUpvalue)
    } else if byte == 13 {
        Some(OpCode::GetVariable)
    } else if byte == 14 {
        Some(OpCode::StoreVariable)
    } else if byte == 15 {
        Some(OpCode::Add)
    } else if byte == 16 {
        Some(OpCode::Sub)
    } else if byte == 17 {
        Some(OpCode::Mul)
    } else if byte == 18 {
        Some(OpCode::Div)
    } else if byte == 19 {
        Some(OpCode::Negate)
    } else if byte == 20 {
        Some(OpCode::Not)
    } else if byte == 21 {
        Some(OpCode::Equal)
    } else if byte == 22 {
        Some(OpCode::NotEqual)
    } else if byte == 23 {
        Some(OpCode::Less)
    } else if byte == 24 {
        Some(OpCode::Greater)
    } else if byte == 25 {
        Some(OpCode::LessEqual)
    } else if byte == 26 {
        Some(OpCode::GreaterEqual)
    } else if byte == 27 {
        Some(OpCode::EnterScope)
    } else if byte == 28 {
        Some(OpCode::ExitScope)
    } else if byte == 29 {
        Some(OpCode::Jump)
    } else if byte == 30 {
        Some(OpCode::JumpIfFalse)
    } else if byte == 31 {
        Some(OpCode::Loop)
    } else if byte == 32 {
        Some(OpCode::Call)
    } else if byte == 33 {
        Some(OpCode::Return)
    } else if byte == 34 {
        Some(OpCode::Closure)
    } else if byte == 35 {
        Some(OpCode::Print)
    } else if byte == 36 {
        Some(OpCode::MakeArray)
    } else if byte == 37 {
        Some(OpCode::BuildRange)
    } else if byte == 38 {
        Some(OpCode::GetIndex)
    } else if byte == 39 {
        Some(OpCode::ArrayLen)
    } else {
        None
    }
}

/// Reads one opcode byte.
pub fn decode_opcode(byte: u8) -> (op: Option<OpCode>)
    ensures
        op == spec_decode(byte),
{
    match byte {
        0 => Some(OpCode::Constant),
        1 => Some(OpCode::Nil),
        2 => Some(OpCode::True),
        3 => Some(OpCode::False),
        4 => Some(OpCode::Pop),
        5 => Some(OpCode::GetLocal),
        6 => Some(OpCode::SetLocal),
        7 => Some(OpCode::GetGlobal),
        8 => Some(OpCode::SetGlobal),
        9 => Some(OpCode::DefineGlobal),
        10 => Some(OpCode::GetUpvalue),
        11 => Some(OpCode::SetUpvalue),
        12 => Some(OpCode::CloseUpvalue),
        13 => Some(OpCode::GetVariable),
        14 => Some(OpCode::StoreVariable),
        15 => Some(OpCode::Add),
        16 => Some(OpCode::Sub),
        17 => Some(OpCode::Mul),
        18 => Some(OpCode::Div),
        19 => Some(OpCode::Negate),
        20 => Some(OpCode::Not),
        21 => Some(OpCode::Equal),
        22 => Some(OpCode::NotEqual),
        23 => Some(OpCode::Less),
        24 => Some(OpCode::Greater),
        25 => Some(OpCode::LessEqual),
        26 => Some(OpCode::GreaterEqual),
        27 => Some(OpCode::EnterScope),
        28 => Some(OpCode::ExitScope),
        29 => Some(OpCode::Jump),
        30 => Some(OpCode::JumpIfFalse),
        31 => Some(OpCode::Loop),
        32 => Some(OpCode::Call),
        33 => Some(OpCode::Return),
        34 => Some(OpCode::Closure),
        35 => Some(OpCode::Print),
        36 => Some(OpCode::MakeArray),
        37 => Some(OpCode::BuildRange),
        38 => Some(OpCode::GetIndex),
        39 => Some(OpCode::ArrayLen),
        _ => None,
    }
}

/// The byte an opcode is stored as.
pub fn encode_opcode(op: OpCode) -> (byte: u8)
    ensures
        byte == spec_encode(op),
{
    match op {
        OpCode::Constant => 0,
        OpCode::Nil => 1,
        OpCode::True => 2,
        OpCode::False => 3,
        OpCode::Pop => 4,
        OpCode::GetLocal => 5,
        OpCode::SetLocal => 6,
        OpCode::GetGlobal => 7,
        OpCode::SetGlobal => 8,
        OpCode::DefineGlobal => 9,
        OpCode::GetUpvalue => 10,
        OpCode::SetUpvalue => 11,
        OpCode::CloseUpvalue => 12,
        OpCode::GetVariable => 13,
        OpCode::StoreVariable => 14,
        OpCode::Add => 15,
        OpCode::Sub => 16,
        OpCode::Mul => 17,
        OpCode::Div => 18,
        OpCode::Negate => 19,
        OpCode::Not => 20,
        OpCode::Equal => 21,
        OpCode::NotEqual => 22,
        OpCode::Less => 23,
        OpCode::Greater => 24,
        OpCode::LessEqual => 25,
        OpCode::GreaterEqual => 26,
        OpCode::EnterScope => 27,
        OpCode::ExitScope => 28,
        OpCode::Jump => 29,
        OpCode::JumpIfFalse => 30,
        OpCode::Loop => 31,
        OpCode::Call => 32,
        OpCode::Return => 33,
        OpCode::Closure => 34,
        OpCode::Print => 35,
        OpCode::MakeArray => 36,
        OpCode::BuildRange => 37,
        OpCode::GetIndex => 38,
        OpCode::ArrayLen => 39,
    }
}

/// Decoding the byte of an opcode gives the opcode back.
pub proof fn lemma_decode_encode(op: OpCode)
    ensures
        spec_decode(spec_encode(op)) == Some(op),
{
}

/// A byte that decodes to an opcode is that opcode's byte; exactly the bytes
/// below the table size decode.
pub proof fn lemma_encode_decode(byte: u8)
    ensures
        spec_decode(byte) matches Some(op) ==> spec_encode(op) == byte,
        spec_decode(byte) is Some <==> byte < 40,
{
}

/// Different opcodes are stored as different bytes.
pub proof fn lemma_encode_injective(a: OpCode, b: OpCode)
    ensures
        spec_encode(a) == spec_encode(b) ==> a == b,
{
    lemma_decode_encode(a);
    lemma_decode_encode(b);
}

} // verus!

verus! {

/// A value kept in the constant pool. A decimal keeps the digits it was written with.
#[derive(Debug)]
pub enum ConstValue {
    GuppyString(String),
    GuppyChar(char),
    GuppyNumber(i64),
    GuppyFloat(String),
    Nothing,
}

/// What the constant pool holds: values, variable names, and compiled functions.
#[derive(Debug)]
pub enum Constant {
    Value(ConstValue),
    String(String),
    Function(CompiledFunction),
}

/// A compiled function: how many parameters, its code, and how to wire the
/// variables it captures.
#[derive(Debug)]
pub struct CompiledFunction {
    pub arity: usize,
    pub chunk: Chunk,
    pub upvalues: Vec<UpvalueDescriptor>,
    pub local_names: Vec<String>,
}

/// How to find one captured variable when a closure is made: a local slot of
/// the enclosing function, or one of its own captured variables.
#[derive(Debug, Clone, Copy, PartialEq, Eq, Structural)]
pub struct UpvalueDescriptor {
    pub index: u8,
    pub is_local: bool,
}

/// The code of one function: bytes, constants, and the source span of each byte.
#[derive(Debug)]
pub struct Chunk {
    pub code: Vec<u8>,
    pub constants: Vec<Constant>,
    pub spans: Vec<Span>,
}

pub enum ConstValueView {
    GuppyString(Seq<char>),
    GuppyChar(char),
    GuppyNumber(i64),
    GuppyFloat(Seq<char>),
    Nothing,
}

pub enum ConstantView {
    Value(ConstValueView),
    String(Seq<char>),
    Function(FunctionView),
}

#[verifier::ext_equal]
pub struct FunctionView {
    pub arity: usize,
    pub code: Seq<u8>,
    pub constants: Seq<ConstantView>,
    pub spans: Seq<Span>,
    pub upvalues: Seq<UpvalueDescriptor>,
    pub local_names: Seq<Seq<char>>,
}

impl View for ConstValue {
    type V = ConstValueView;

    open spec fn view(&self) -> ConstValueView {
        match self {
            ConstValue::GuppyString(s) => ConstValueView::GuppyString(s@),
            ConstValue::GuppyChar(c) => ConstValueView::GuppyChar(*c),
            ConstValue::GuppyNumber(n) => ConstValueView::GuppyNumber(*n),
            ConstValue::GuppyFloat(s) => ConstValueView::GuppyFloat(s@),
            ConstValue::Nothing => ConstValueView::Nothing,
        }
    }
}

pub open spec fn strings_view(v: Seq<String>) -> Seq<Seq<char>> {
    Seq::new(v.len(), |i: int| v[i]@)
}

impl Constant {
    pub open spec fn view_of(&self) -> ConstantView
        decreases self,
    {
        match self {
            Constant::Value(v) => ConstantView::Value(v@),
            Constant::String(s) => ConstantView::String(s@),
            Constant::Function(f) => ConstantView::Function(
                FunctionView {
                    arity: f.arity,
                    code: f.chunk.code@,
                    constants: Seq::new(
                        f.chunk.constants@.len(),
                        |i: int|
                            if 0 <= i < f.chunk.constants@.len() {
                                f.chunk.constants@[i].view_of()
                            } else {
                                vstd::pervasive::arbitrary()
                            },
                    ),
                    spans: f.chunk.spans@,
                    upvalues: f.upvalues@,
                    local_names: strings_view(f.local_names@),
                },
            ),
        }
    }
}

impl View for Constant {
    type V = ConstantView;

    open spec fn view(&self) -> ConstantView {
        self.view_of()
    }
}

pub open spec fn constants_view(v: Seq<Constant>) -> Seq<ConstantView> {
    Seq::new(v.len(), |i: int| v[i]@)
}

impl View for CompiledFunction {
    type V = FunctionView;

    open spec fn view(&self) -> FunctionView {
        FunctionView {
            arity: self.arity,
            code: self.chunk.code@,
            constants: constants_view(self.chunk.constants@),
            spans: self.chunk.spans@,
            upvalues: self.upvalues@,
            local_names: strings_view(self.local_names@),
        }
    }
}

impl Chunk {
    /// An empty chunk.
    pub fn new() -> (c: Chunk)
        ensures
            c.code@ == Seq::<u8>::empty(),
            c.constants@ == Seq::<Constant>::empty(),
            c.spans@ == Seq::<Span>::empty(),
    {
        Chunk { code: Vec::new(), constants: Vec::new(), spans: Vec::new() }
    }

    /// Adds a constant and returns its index in the pool.
    pub fn add_constant(&mut self, constant: Constant) -> (index: usize)
        ensures
            index == old(self).constants@.len(),
            final(self).constants@ == old(self).constants@.push(constant),
            final(self).code@ == old(self).code@,
            final(self).spans@ == old(self).spans@,
    {
        let index = self.constants.len();
        self.constants.push(constant);
        index
    }

    /// Appends one byte, remembering the span it came from.
    pub fn write(&mut self, byte: u8, span: Span)
        ensures
            final(self).code@ == old(self).code@.push(byte),
            final(self).spans@ == old(self).spans@.push(span),
            final(self).constants@ == old(self).constants@,
    {
        self.code.push(byte);
        self.spans.push(span);
    }

    /// Overwrites the two bytes at `offset` with `value`, high byte first.
    pub fn patch_u16(&mut self, offset: usize, value: u16)
        requires
            offset + 1 < old(self).code@.len(),
        ensures
            final(self).code@ == old(self).code@.update(offset as int, (value >> 8) as u8).update(
                offset + 1,
                (value & 0xff) as u8,
            ),
            final(self).spans@ == old(self).spans@,
            final(self).constants@ == old(self).constants@,
    {
        let len = self.code.len();
        let next = offset + 1;
        assert(next < len);
        self.code.set(offset, (value >> 8) as u8);
        self.code.set(next, #[verifier::truncate] ((value & 0xff) as u8));
    }

    /// How many bytes of code there are so far.
    pub fn current_offset(&self) -> (n: usize)
        ensures
            n == self.code@.len(),
    {
        self.code.len()
    }
}

} // verus!
