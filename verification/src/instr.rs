//! The instruction set: what each opcode byte, with its operand bytes,
//! asks of the interpreter.

use vstd::prelude::*;

use crate::cell::{
    extend_byte, extend_short, sign_extend_byte, sign_extend_short, Binary, Cond, Narrow, Shift,
};
use crate::error::VmError;
use crate::reader::{be16, be32, read_i32, read_u16, signed16, signed32};

verus! {

/// The kind of element that an array instruction moves.
#[derive(Clone, Copy, Debug, PartialEq, Eq, Structural)]
pub enum Element {
    Int,
    Long,
    Float,
    Double,
    Reference,
    /// `byte` or `boolean`.
    Byte,
    Char,
    Short,
}

/// The instructions that only rearrange the top of the operand stack.
#[derive(Clone, Copy, Debug, PartialEq, Eq, Structural)]
pub enum StackOp {
    Pop,
    Pop2,
    Dup,
    DupX1,
    DupX2,
    Dup2,
    Dup2X1,
    Dup2X2,
    Swap,
}

/// The instructions that compute with floating-point numbers. The machine
/// holds such numbers as bit patterns and leaves the arithmetic on them to
/// its host.
#[derive(Clone, Copy, Debug, PartialEq, Eq, Structural)]
pub enum FloatOp {
    FAdd,
    FSub,
    FMul,
    FDiv,
    FRem,
    FNeg,
    DAdd,
    DSub,
    DMul,
    DDiv,
    DRem,
    DNeg,
    I2F,
    I2D,
    L2F,
    L2D,
    F2I,
    F2L,
    F2D,
    D2I,
    D2L,
    D2F,
    FCompareL,
    FCompareG,
    DCompareL,
    DCompareG,
}

/// The four ways to invoke a method.
#[derive(Clone, Copy, Debug, PartialEq, Eq, Structural)]
pub enum InvokeKind {
    Virtual,
    Special,
    Static,
    Interface,
}

/// A decoded instruction. Instructions that differ only in the type they
/// name, and not in what they do to the cells, decode to the same value.
#[derive(Clone, Copy, Debug, PartialEq, Eq, Structural)]
pub enum Instr {
    Nop,
    /// Push one cell.
    Push1(u32),
    /// Push two cells: high word, low word.
    Push2(u32, u32),
    /// `ldc`, `ldc_w`: push the one-cell constant with this index.
    Ldc(u16),
    /// `ldc2_w`: push the two-cell constant with this index.
    Ldc2(u16),
    /// Push the local variable with this index.
    Load1(u16),
    /// Push the two local variables that start at this index.
    Load2(u16),
    /// Pop one cell into the local variable with this index.
    Store1(u16),
    /// Pop two cells into the two local variables that start at this index.
    Store2(u16),
    ArrayLoad(Element),
    ArrayStore(Element),
    Stack(StackOp),
    IntBinary(Binary),
    LongBinary(Binary),
    IntNegate,
    LongNegate,
    IntShift(Shift),
    LongShift(Shift),
    /// `iinc`: add the second operand, a sign-extended cell, to the local
    /// variable with the index that is the first.
    Increment(u16, u32),
    /// `i2l`.
    Widen,
    /// `l2i`.
    Truncate,
    Narrow(Narrow),
    /// `lcmp`.
    LongOrder,
    Float(FloatOp),
    /// Branch where the condition holds between the popped `int` and 0.
    If(Cond, i32),
    /// Branch where the condition holds between two popped `int`s.
    IfInt(Cond, i32),
    /// Branch where two popped references are equal (`true`) or differ
    /// (`false`).
    IfReference(bool, i32),
    /// Branch where the popped reference is null (`true`) or is not
    /// (`false`).
    IfNull(bool, i32),
    Goto(i32),
    TableSwitch,
    LookupSwitch,
    /// Return, handing this many cells to the invoker.
    Return(u8),
    GetStatic(u16),
    PutStatic(u16),
    GetField(u16),
    PutField(u16),
    Invoke(InvokeKind, u16),
    New(u16),
    NewArray(u8),
    ANewArray(u16),
    ArrayLength,
    Throw,
    CheckCast(u16),
    InstanceOf(u16),
    /// `monitorenter`, `monitorexit`.
    Monitor,
    /// `multianewarray`: class index and number of dimensions.
    MultiNewArray(u16, u8),
}

/// The instruction that an opcode without operand bytes stands for.
pub open spec fn spec_plain(op: u8) -> Option<Instr> {
    match op {
        0x00 => Some(Instr::Nop),
        0x01 => Some(Instr::Push1(0)),
        0x02 => Some(Instr::Push1(0xffff_ffff)),
        0x03 => Some(Instr::Push1(0)),
        0x04 => Some(Instr::Push1(1)),
        0x05 => Some(Instr::Push1(2)),
        0x06 => Some(Instr::Push1(3)),
        0x07 => Some(Instr::Push1(4)),
        0x08 => Some(Instr::Push1(5)),
        0x09 => Some(Instr::Push2(0, 0)),
        0x0a => Some(Instr::Push2(0, 1)),
        0x0b => Some(Instr::Push1(0)),
        0x0c => Some(Instr::Push1(0x3f80_0000)),
        0x0d => Some(Instr::Push1(0x4000_0000)),
        0x0e => Some(Instr::Push2(0, 0)),
        0x0f => Some(Instr::Push2(0x3ff0_0000, 0)),
        0x1a => Some(Instr::Load1(0)),
        0x1b => Some(Instr::Load1(1)),
        0x1c => Some(Instr::Load1(2)),
        0x1d => Some(Instr::Load1(3)),
        0x1e => Some(Instr::Load2(0)),
        0x1f => Some(Instr::Load2(1)),
        0x20 => Some(Instr::Load2(2)),
        0x21 => Some(Instr::Load2(3)),
        0x22 => Some(Instr::Load1(0)),
        0x23 => Some(Instr::Load1(1)),
        0x24 => Some(Instr::Load1(2)),
        0x25 => Some(Instr::Load1(3)),
        0x26 => Some(Instr::Load2(0)),
        0x27 => Some(Instr::Load2(1)),
        0x28 => Some(Instr::Load2(2)),
        0x29 => Some(Instr::Load2(3)),
        0x2a => Some(Instr::Load1(0)),
        0x2b => Some(Instr::Load1(1)),
        0x2c => Some(Instr::Load1(2)),
        0x2d => Some(Instr::Load1(3)),
        0x2e => Some(Instr::ArrayLoad(Element::Int)),
        0x2f => Some(Instr::ArrayLoad(Element::Long)),
        0x30 => Some(Instr::ArrayLoad(Element::Float)),
        0x31 => Some(Instr::ArrayLoad(Element::Double)),
        0x32 => Some(Instr::ArrayLoad(Element::Reference)),
        0x33 => Some(Instr::ArrayLoad(Element::Byte)),
        0x34 => Some(Instr::ArrayLoad(Element::Char)),
        0x35 => Some(Instr::ArrayLoad(Element::Short)),
        0x3b => Some(Instr::Store1(0)),
        0x3c => Some(Instr::Store1(1)),
        0x3d => Some(Instr::Store1(2)),
        0x3e => Some(Instr::Store1(3)),
        0x3f => Some(Instr::Store2(0)),
        0x40 => Some(Instr::Store2(1)),
        0x41 => Some(Instr::Store2(2)),
        0x42 => Some(Instr::Store2(3)),
        0x43 => Some(Instr::Store1(0)),
        0x44 => Some(Instr::Store1(1)),
        0x45 => Some(Instr::Store1(2)),
        0x46 => Some(Instr::Store1(3)),
        0x47 => Some(Instr::Store2(0)),
        0x48 => Some(Instr::Store2(1)),
        0x49 => Some(Instr::Store2(2)),
        0x4a => Some(Instr::Store2(3)),
        0x4b => Some(Instr::Store1(0)),
        0x4c => Some(Instr::Store1(1)),
        0x4d => Some(Instr::Store1(2)),
        0x4e => Some(Instr::Store1(3)),
        0x4f => Some(Instr::ArrayStore(Element::Int)),
        0x50 => Some(Instr::ArrayStore(Element::Long)),
        0x51 => Some(Instr::ArrayStore(Element::Float)),
        0x52 => Some(Instr::ArrayStore(Element::Double)),
        0x53 => Some(Instr::ArrayStore(Element::Reference)),
        0x54 => Some(Instr::ArrayStore(Element::Byte)),
        0x55 => Some(Instr::ArrayStore(Element::Char)),
        0x56 => Some(Instr::ArrayStore(Element::Short)),
        0x57 => Some(Instr::Stack(StackOp::Pop)),
        0x58 => Some(Instr::Stack(StackOp::Pop2)),
        0x59 => Some(Instr::Stack(StackOp::Dup)),
        0x5a => Some(Instr::Stack(StackOp::DupX1)),
        0x5b => Some(Instr::Stack(StackOp::DupX2)),
        0x5c => Some(Instr::Stack(StackOp::Dup2)),
        0x5d => Some(Instr::Stack(StackOp::Dup2X1)),
        0x5e => Some(Instr::Stack(StackOp::Dup2X2)),
        0x5f => Some(Instr::Stack(StackOp::Swap)),
        0x60 => Some(Instr::IntBinary(Binary::Add)),
        0x61 => Some(Instr::LongBinary(Binary::Add)),
        0x62 => Some(Instr::Float(FloatOp::FAdd)),
        0x63 => Some(Instr::Float(FloatOp::DAdd)),
        0x64 => Some(Instr::IntBinary(Binary::Sub)),
        0x65 => Some(Instr::LongBinary(Binary::Sub)),
        0x66 => Some(Instr::Float(FloatOp::FSub)),
        0x67 => Some(Instr::Float(FloatOp::DSub)),
        0x68 => Some(Instr::IntBinary(Binary::Mul)),
        0x69 => Some(Instr::LongBinary(Binary::Mul)),
        0x6a => Some(Instr::Float(FloatOp::FMul)),
        0x6b => Some(Instr::Float(FloatOp::DMul)),
        0x6c => Some(Instr::IntBinary(Binary::Div)),
        0x6d => Some(Instr::LongBinary(Binary::Div)),
        0x6e => Some(Instr::Float(FloatOp::FDiv)),
        0x6f => Some(Instr::Float(FloatOp::DDiv)),
        0x70 => Some(Instr::IntBinary(Binary::Rem)),
        0x71 => Some(Instr::LongBinary(Binary::Rem)),
        0x72 => Some(Instr::Float(FloatOp::FRem)),
        0x73 => Some(Instr::Float(FloatOp::DRem)),
        0x74 => Some(Instr::IntNegate),
        0x75 => Some(Instr::LongNegate),
        0x76 => Some(Instr::Float(FloatOp::FNeg)),
        0x77 => Some(Instr::Float(FloatOp::DNeg)),
        0x78 => Some(Instr::IntShift(Shift::Left)),
        0x79 => Some(Instr::LongShift(Shift::Left)),
        0x7a => Some(Instr::IntShift(Shift::Right)),
        0x7b => Some(Instr::LongShift(Shift::Right)),
        0x7c => Some(Instr::IntShift(Shift::RightLogical)),
        0x7d => Some(Instr::LongShift(Shift::RightLogical)),
        0x7e => Some(Instr::IntBinary(Binary::And)),
        0x7f => Some(Instr::LongBinary(Binary::And)),
        0x80 => Some(Instr::IntBinary(Binary::Or)),
        0x81 => Some(Instr::LongBinary(Binary::Or)),
        0x82 => Some(Instr::IntBinary(Binary::Xor)),
        0x83 => Some(Instr::LongBinary(Binary::Xor)),
        0x85 => Some(Instr::Widen),
        0x86 => Some(Instr::Float(FloatOp::I2F)),
        0x87 => Some(Instr::Float(FloatOp::I2D)),
        0x88 => Some(Instr::Truncate),
        0x89 => Some(Instr::Float(FloatOp::L2F)),
        0x8a => Some(Instr::Float(FloatOp::L2D)),
        0x8b => Some(Instr::Float(FloatOp::F2I)),
        0x8c => Some(Instr::Float(FloatOp::F2L)),
        0x8d => Some(Instr::Float(FloatOp::F2D)),
        0x8e => Some(Instr::Float(FloatOp::D2I)),
        0x8f => Some(Instr::Float(FloatOp::D2L)),
        0x90 => Some(Instr::Float(FloatOp::D2F)),
        0x91 => Some(Instr::Narrow(Narrow::Byte)),
        0x92 => Some(Instr::Narrow(Narrow::Char)),
        0x93 => Some(Instr::Narrow(Narrow::Short)),
        0x94 => Some(Instr::LongOrder),
        0x95 => Some(Instr::Float(FloatOp::FCompareL)),
        0x96 => Some(Instr::Float(FloatOp::FCompareG)),
        0x97 => Some(Instr::Float(FloatOp::DCompareL)),
        0x98 => Some(Instr::Float(FloatOp::DCompareG)),
        0xaa => Some(Instr::TableSwitch),
        0xab => Some(Instr::LookupSwitch),
        0xac => Some(Instr::Return(1)),
        0xad => Some(Instr::Return(2)),
        0xae => Some(Instr::Return(1)),
        0xaf => Some(Instr::Return(2)),
        0xb0 => Some(Instr::Return(1)),
        0xb1 => Some(Instr::Return(0)),
        0xbe => Some(Instr::ArrayLength),
        0xbf => Some(Instr::Throw),
        0xc2 => Some(Instr::Monitor),
        0xc3 => Some(Instr::Monitor),
        _ => None,
    }
}

/// The instruction that an opcode without operand bytes stands for.
pub fn plain(op: u8) -> (r: Option<Instr>)
    ensures
        r == spec_plain(op),
{
    match op {
        0x00 => Some(Instr::Nop),
        0x01 => Some(Instr::Push1(0)),
        0x02 => Some(Instr::Push1(0xffff_ffff)),
        0x03 => Some(Instr::Push1(0)),
        0x04 => Some(Instr::Push1(1)),
        0x05 => Some(Instr::Push1(2)),
        0x06 => Some(Instr::Push1(3)),
        0x07 => Some(Instr::Push1(4)),
        0x08 => Some(Instr::Push1(5)),
        0x09 => Some(Instr::Push2(0, 0)),
        0x0a => Some(Instr::Push2(0, 1)),
        0x0b => Some(Instr::Push1(0)),
        0x0c => Some(Instr::Push1(0x3f80_0000)),
        0x0d => Some(Instr::Push1(0x4000_0000)),
        0x0e => Some(Instr::Push2(0, 0)),
        0x0f => Some(Instr::Push2(0x3ff0_0000, 0)),
        0x1a => Some(Instr::Load1(0)),
        0x1b => Some(Instr::Load1(1)),
        0x1c => Some(Instr::Load1(2)),
        0x1d => Some(Instr::Load1(3)),
        0x1e => Some(Instr::Load2(0)),
        0x1f => Some(Instr::Load2(1)),
        0x20 => Some(Instr::Load2(2)),
        0x21 => Some(Instr::Load2(3)),
        0x22 => Some(Instr::Load1(0)),
        0x23 => Some(Instr::Load1(1)),
        0x24 => Some(Instr::Load1(2)),
        0x25 => Some(Instr::Load1(3)),
        0x26 => Some(Instr::Load2(0)),
        0x27 => Some(Instr::Load2(1)),
        0x28 => Some(Instr::Load2(2)),
        0x29 => Some(Instr::Load2(3)),
        0x2a => Some(Instr::Load1(0)),
        0x2b => Some(Instr::Load1(1)),
        0x2c => Some(Instr::Load1(2)),
        0x2d => Some(Instr::Load1(3)),
        0x2e => Some(Instr::ArrayLoad(Element::Int)),
        0x2f => Some(Instr::ArrayLoad(Element::Long)),
        0x30 => Some(Instr::ArrayLoad(Element::Float)),
        0x31 => Some(Instr::ArrayLoad(Element::Double)),
        0x32 => Some(Instr::ArrayLoad(Element::Reference)),
        0x33 => Some(Instr::ArrayLoad(Element::Byte)),
        0x34 => Some(Instr::ArrayLoad(Element::Char)),
        0x35 => Some(Instr::ArrayLoad(Element::Short)),
        0x3b => Some(Instr::Store1(0)),
        0x3c => Some(Instr::Store1(1)),
        0x3d => Some(Instr::Store1(2)),
        0x3e => Some(Instr::Store1(3)),
        0x3f => Some(Instr::Store2(0)),
        0x40 => Some(Instr::Store2(1)),
        0x41 => Some(Instr::Store2(2)),
        0x42 => Some(Instr::Store2(3)),
        0x43 => Some(Instr::Store1(0)),
        0x44 => Some(Instr::Store1(1)),
        0x45 => Some(Instr::Store1(2)),
        0x46 => Some(Instr::Store1(3)),
        0x47 => Some(Instr::Store2(0)),
        0x48 => Some(Instr::Store2(1)),
        0x49 => Some(Instr::Store2(2)),
        0x4a => Some(Instr::Store2(3)),
        0x4b => Some(Instr::Store1(0)),
        0x4c => Some(Instr::Store1(1)),
        0x4d => Some(Instr::Store1(2)),
        0x4e => Some(Instr::Store1(3)),
        0x4f => Some(Instr::ArrayStore(Element::Int)),
        0x50 => Some(Instr::ArrayStore(Element::Long)),
        0x51 => Some(Instr::ArrayStore(Element::Float)),
        0x52 => Some(Instr::ArrayStore(Element::Double)),
        0x53 => Some(Instr::ArrayStore(Element::Reference)),
        0x54 => Some(Instr::ArrayStore(Element::Byte)),
        0x55 => Some(Instr::ArrayStore(Element::Char)),
        0x56 => Some(Instr::ArrayStore(Element::Short)),
        0x57 => Some(Instr::Stack(StackOp::Pop)),
        0x58 => Some(Instr::Stack(StackOp::Pop2)),
        0x59 => Some(Instr::Stack(StackOp::Dup)),
        0x5a => Some(Instr::Stack(StackOp::DupX1)),
        0x5b => Some(Instr::Stack(StackOp::DupX2)),
        0x5c => Some(Instr::Stack(StackOp::Dup2)),
        0x5d => Some(Instr::Stack(StackOp::Dup2X1)),
        0x5e => Some(Instr::Stack(StackOp::Dup2X2)),
        0x5f => Some(Instr::Stack(StackOp::Swap)),
        0x60 => Some(Instr::IntBinary(Binary::Add)),
        0x61 => Some(Instr::LongBinary(Binary::Add)),
        0x62 => Some(Instr::Float(FloatOp::FAdd)),
        0x63 => Some(Instr::Float(FloatOp::DAdd)),
        0x64 => Some(Instr::IntBinary(Binary::Sub)),
        0x65 => Some(Instr::LongBinary(Binary::Sub)),
        0x66 => Some(Instr::Float(FloatOp::FSub)),
        0x67 => Some(Instr::Float(FloatOp::DSub)),
        0x68 => Some(Instr::IntBinary(Binary::Mul)),
        0x69 => Some(Instr::LongBinary(Binary::Mul)),
        0x6a => Some(Instr::Float(FloatOp::FMul)),
        0x6b => Some(Instr::Float(FloatOp::DMul)),
        0x6c => Some(Instr::IntBinary(Binary::Div)),
        0x6d => Some(Instr::LongBinary(Binary::Div)),
        0x6e => Some(Instr::Float(FloatOp::FDiv)),
        0x6f => Some(Instr::Float(FloatOp::DDiv)),
        0x70 => Some(Instr::IntBinary(Binary::Rem)),
        0x71 => Some(Instr::LongBinary(Binary::Rem)),
        0x72 => Some(Instr::Float(FloatOp::FRem)),
        0x73 => Some(Instr::Float(FloatOp::DRem)),
        0x74 => Some(Instr::IntNegate),
        0x75 => Some(Instr::LongNegate),
        0x76 => Some(Instr::Float(FloatOp::FNeg)),
        0x77 => Some(Instr::Float(FloatOp::DNeg)),
        0x78 => Some(Instr::IntShift(Shift::Left)),
        0x79 => Some(Instr::LongShift(Shift::Left)),
        0x7a => Some(Instr::IntShift(Shift::Right)),
        0x7b => Some(Instr::LongShift(Shift::Right)),
        0x7c => Some(Instr::IntShift(Shift::RightLogical)),
        0x7d => Some(Instr::LongShift(Shift::RightLogical)),
        0x7e => Some(Instr::IntBinary(Binary::And)),
        0x7f => Some(Instr::LongBinary(Binary::And)),
        0x80 => Some(Instr::IntBinary(Binary::Or)),
        0x81 => Some(Instr::LongBinary(Binary::Or)),
        0x82 => Some(Instr::IntBinary(Binary::Xor)),
        0x83 => Some(Instr::LongBinary(Binary::Xor)),
        0x85 => Some(Instr::Widen),
        0x86 => Some(Instr::Float(FloatOp::I2F)),
        0x87 => Some(Instr::Float(FloatOp::I2D)),
        0x88 => Some(Instr::Truncate),
        0x89 => Some(Instr::Float(FloatOp::L2F)),
        0x8a => Some(Instr::Float(FloatOp::L2D)),
        0x8b => Some(Instr::Float(FloatOp::F2I)),
        0x8c => Some(Instr::Float(FloatOp::F2L)),
        0x8d => Some(Instr::Float(FloatOp::F2D)),
        0x8e => Some(Instr::Float(FloatOp::D2I)),
        0x8f => Some(Instr::Float(FloatOp::D2L)),
        0x90 => Some(Instr::Float(FloatOp::D2F)),
        0x91 => Some(Instr::Narrow(Narrow::Byte)),
        0x92 => Some(Instr::Narrow(Narrow::Char)),
        0x93 => Some(Instr::Narrow(Narrow::Short)),
        0x94 => Some(Instr::LongOrder),
        0x95 => Some(Instr::Float(FloatOp::FCompareL)),
        0x96 => Some(Instr::Float(FloatOp::FCompareG)),
        0x97 => Some(Instr::Float(FloatOp::DCompareL)),
        0x98 => Some(Instr::Float(FloatOp::DCompareG)),
        0xaa => Some(Instr::TableSwitch),
        0xab => Some(Instr::LookupSwitch),
        0xac => Some(Instr::Return(1)),
        0xad => Some(Instr::Return(2)),
        0xae => Some(Instr::Return(1)),
        0xaf => Some(Instr::Return(2)),
        0xb0 => Some(Instr::Return(1)),
        0xb1 => Some(Instr::Return(0)),
        0xbe => Some(Instr::ArrayLength),
        0xbf => Some(Instr::Throw),
        0xc2 => Some(Instr::Monitor),
        0xc3 => Some(Instr::Monitor),
        _ => None,
    }
}

/// The condition of the conditional branch with opcode `op`, counted from
/// the first of its group of six.
pub open spec fn spec_cond(n: int) -> Cond {
    if n == 0 {
        Cond::Eq
    } else if n == 1 {
        Cond::Ne
    } else if n == 2 {
        Cond::Lt
    } else if n == 3 {
        Cond::Ge
    } else if n == 4 {
        Cond::Gt
    } else {
        Cond::Le
    }
}

fn cond_of(n: u8) -> (r: Cond)
    ensures
        r == spec_cond(n as int),
{
    if n == 0 {
        Cond::Eq
    } else if n == 1 {
        Cond::Ne
    } else if n == 2 {
        Cond::Lt
    } else if n == 3 {
        Cond::Ge
    } else if n == 4 {
        Cond::Gt
    } else {
        Cond::Le
    }
}

/// The instruction with one operand byte `a`, for opcode `op`.
pub open spec fn spec_one_byte(op: u8, a: u8) -> Option<Instr> {
    if op == 0x10 {
        Some(Instr::Push1(sign_extend_byte(a)))
    } else if op == 0x12 {
        Some(Instr::Ldc(a as u16))
    } else if op == 0x15 || op == 0x17 || op == 0x19 {
        Some(Instr::Load1(a as u16))
    } else if op == 0x16 || op == 0x18 {
        Some(Instr::Load2(a as u16))
    } else if op == 0x36 || op == 0x38 || op == 0x3a {
        Some(Instr::Store1(a as u16))
    } else if op == 0x37 || op == 0x39 {
        Some(Instr::Store2(a as u16))
    } else if op == 0xbc {
        Some(Instr::NewArray(a))
    } else {
        None
    }
}

fn one_byte(op: u8, a: u8) -> (r: Option<Instr>)
    ensures
        r == spec_one_byte(op, a),
{
    if op == 0x10 {
        Some(Instr::Push1(extend_byte(a)))
    } else if op == 0x12 {
        Some(Instr::Ldc(a as u16))
    } else if op == 0x15 || op == 0x17 || op == 0x19 {
        Some(Instr::Load1(a as u16))
    } else if op == 0x16 || op == 0x18 {
        Some(Instr::Load2(a as u16))
    } else if op == 0x36 || op == 0x38 || op == 0x3a {
        Some(Instr::Store1(a as u16))
    } else if op == 0x37 || op == 0x39 {
        Some(Instr::Store2(a as u16))
    } else if op == 0xbc {
        Some(Instr::NewArray(a))
    } else {
        None
    }
}

/// The instruction with one two-byte operand `v`, for opcode `op`. A branch
/// reads the operand as a signed offset.
pub open spec fn spec_two_bytes(op: u8, v: u16) -> Option<Instr> {
    let offset = signed16(v as int) as i32;
    if op == 0x11 {
        Some(Instr::Push1(sign_extend_short(v)))
    } else if op == 0x13 {
        Some(Instr::Ldc(v))
    } else if op == 0x14 {
        Some(Instr::Ldc2(v))
    } else if 0x99 <= op <= 0x9e {
        Some(Instr::If(spec_cond(op - 0x99), offset))
    } else if 0x9f <= op <= 0xa4 {
        Some(Instr::IfInt(spec_cond(op - 0x9f), offset))
    } else if op == 0xa5 {
        Some(Instr::IfReference(true, offset))
    } else if op == 0xa6 {
        Some(Instr::IfReference(false, offset))
    } else if op == 0xa7 {
        Some(Instr::Goto(offset))
    } else if op == 0xb2 {
        Some(Instr::GetStatic(v))
    } else if op == 0xb3 {
        Some(Instr::PutStatic(v))
    } else if op == 0xb4 {
        Some(Instr::GetField(v))
    } else if op == 0xb5 {
        Some(Instr::PutField(v))
    } else if op == 0xb6 {
        Some(Instr::Invoke(InvokeKind::Virtual, v))
    } else if op == 0xb7 {
        Some(Instr::Invoke(InvokeKind::Special, v))
    } else if op == 0xb8 {
        Some(Instr::Invoke(InvokeKind::Static, v))
    } else if op == 0xbb {
        Some(Instr::New(v))
    } else if op == 0xbd {
        Some(Instr::ANewArray(v))
    } else if op == 0xc0 {
        Some(Instr::CheckCast(v))
    } else if op == 0xc1 {
        Some(Instr::InstanceOf(v))
    } else if op == 0xc6 {
        Some(Instr::IfNull(true, offset))
    } else if op == 0xc7 {
        Some(Instr::IfNull(false, offset))
    } else {
        None
    }
}

fn two_bytes(op: u8, v: u16) -> (r: Option<Instr>)
    ensures
        r == spec_two_bytes(op, v),
{
    let offset: i32 = if v < 0x8000 {
        v as i32
    } else {
        v as i32 - 0x1_0000
    };
    if op == 0x11 {
        Some(Instr::Push1(extend_short(v)))
    } else if op == 0x13 {
        Some(Instr::Ldc(v))
    } else if op == 0x14 {
        Some(Instr::Ldc2(v))
    } else if 0x99 <= op && op <= 0x9e {
        Some(Instr::If(cond_of(op - 0x99), offset))
    } else if 0x9f <= op && op <= 0xa4 {
        Some(Instr::IfInt(cond_of(op - 0x9f), offset))
    } else if op == 0xa5 {
        Some(Instr::IfReference(true, offset))
    } else if op == 0xa6 {
        Some(Instr::IfReference(false, offset))
    } else if op == 0xa7 {
        Some(Instr::Goto(offset))
    } else if op == 0xb2 {
        Some(Instr::GetStatic(v))
    } else if op == 0xb3 {
        Some(Instr::PutStatic(v))
    } else if op == 0xb4 {
        Some(Instr::GetField(v))
    } else if op == 0xb5 {
        Some(Instr::PutField(v))
    } else if op == 0xb6 {
        Some(Instr::Invoke(InvokeKind::Virtual, v))
    } else if op == 0xb7 {
        Some(Instr::Invoke(InvokeKind::Special, v))
    } else if op == 0xb8 {
        Some(Instr::Invoke(InvokeKind::Static, v))
    } else if op == 0xbb {
        Some(Instr::New(v))
    } else if op == 0xbd {
        Some(Instr::ANewArray(v))
    } else if op == 0xc0 {
        Some(Instr::CheckCast(v))
    } else if op == 0xc1 {
        Some(Instr::InstanceOf(v))
    } else if op == 0xc6 {
        Some(Instr::IfNull(true, offset))
    } else if op == 0xc7 {
        Some(Instr::IfNull(false, offset))
    } else {
        None
    }
}

/// The instruction that `wide` makes of the opcode `op` that follows it,
/// with the two-byte index `index`.
pub open spec fn spec_wide(op: u8, index: u16) -> Option<Instr> {
    if op == 0x15 || op == 0x17 || op == 0x19 {
        Some(Instr::Load1(index))
    } else if op == 0x16 || op == 0x18 {
        Some(Instr::Load2(index))
    } else if op == 0x36 || op == 0x38 || op == 0x3a {
        Some(Instr::Store1(index))
    } else if op == 0x37 || op == 0x39 {
        Some(Instr::Store2(index))
    } else {
        None
    }
}

fn wide(op: u8, index: u16) -> (r: Option<Instr>)
    ensures
        r == spec_wide(op, index),
{
    if op == 0x15 || op == 0x17 || op == 0x19 {
        Some(Instr::Load1(index))
    } else if op == 0x16 || op == 0x18 {
        Some(Instr::Load2(index))
    } else if op == 0x36 || op == 0x38 || op == 0x3a {
        Some(Instr::Store1(index))
    } else if op == 0x37 || op == 0x39 {
        Some(Instr::Store2(index))
    } else {
        None
    }
}

/// The instruction at `pc`, and the number of bytes that it takes with its
/// operands (0 for the two switches, whose length depends on where they
/// stand).
///
/// Fails with `BadCode` where `pc` or an operand byte lies outside the
/// code, and with `UnsupportedOpcode` for an opcode that the interpreter
/// does not implement: `jsr`, `ret`, `jsr_w`, `invokedynamic`, and the bytes
/// that are no opcode.
pub open spec fn spec_decode(code: Seq<u8>, pc: int) -> Result<(Instr, int), VmError> {
    if pc < 0 || pc >= code.len() {
        Err(VmError::BadCode)
    } else {
        let op = code[pc];
        if spec_plain(op) is Some {
            Ok((spec_plain(op)->0, if op == 0xaa || op == 0xab { 0 } else { 1 }))
        } else if spec_one_byte(op, 0) is Some {
            if pc + 2 <= code.len() {
                Ok((spec_one_byte(op, code[pc + 1])->0, 2))
            } else {
                Err(VmError::BadCode)
            }
        } else if spec_two_bytes(op, 0) is Some {
            if pc + 3 <= code.len() {
                Ok((spec_two_bytes(op, be16(code, pc + 1) as u16)->0, 3))
            } else {
                Err(VmError::BadCode)
            }
        } else if op == 0x84 {
            if pc + 3 <= code.len() {
                Ok((Instr::Increment(code[pc + 1] as u16, sign_extend_byte(code[pc + 2])), 3))
            } else {
                Err(VmError::BadCode)
            }
        } else if op == 0xb9 {
            if pc + 5 <= code.len() {
                Ok((Instr::Invoke(InvokeKind::Interface, be16(code, pc + 1) as u16), 5))
            } else {
                Err(VmError::BadCode)
            }
        } else if op == 0xc5 {
            if pc + 4 <= code.len() {
                Ok((Instr::MultiNewArray(be16(code, pc + 1) as u16, code[pc + 3]), 4))
            } else {
                Err(VmError::BadCode)
            }
        } else if op == 0xc8 {
            if pc + 5 <= code.len() {
                Ok((Instr::Goto(signed32(be32(code, pc + 1)) as i32), 5))
            } else {
                Err(VmError::BadCode)
            }
        } else if op == 0xc4 {
            if pc + 2 > code.len() {
                Err(VmError::BadCode)
            } else if code[pc + 1] == 0x84 {
                if pc + 6 <= code.len() {
                    Ok(
                        (
                            Instr::Increment(
                                be16(code, pc + 2) as u16,
                                sign_extend_short(be16(code, pc + 4) as u16),
                            ),
                            6,
                        ),
                    )
                } else {
                    Err(VmError::BadCode)
                }
            } else if spec_wide(code[pc + 1], 0) is Some {
                if pc + 4 <= code.len() {
                    Ok((spec_wide(code[pc + 1], be16(code, pc + 2) as u16)->0, 4))
                } else {
                    Err(VmError::BadCode)
                }
            } else {
                Err(VmError::UnsupportedOpcode(code[pc + 1]))
            }
        } else {
            Err(VmError::UnsupportedOpcode(op))
        }
    }
}

/// Decodes the instruction at `pc`.
pub fn decode(code: &[u8], pc: usize) -> (r: Result<(Instr, usize), VmError>)
    ensures
        match spec_decode(code@, pc as int) {
            Ok((instr, length)) => r == Ok::<(Instr, usize), VmError>((instr, length as usize))
                && pc + length <= code@.len(),
            Err(e) => r == Err::<(Instr, usize), VmError>(e),
        },
{
    let size = code.len();
    if pc >= size {
        return Err(VmError::BadCode);
    }
    let op = code[pc];
    let left: usize = size - pc;
    match plain(op) {
        Some(instr) => {
            return Ok((instr, if op == 0xaa || op == 0xab { 0 } else { 1 }));
        },
        None => {},
    }
    if one_byte(op, 0).is_some() {
        if left < 2 {
            return Err(VmError::BadCode);
        }
        return match one_byte(op, code[pc + 1]) {
            Some(instr) => Ok((instr, 2)),
            None => Err(VmError::BadCode),
        };
    }
    if two_bytes(op, 0).is_some() {
        return match read_u16(code, pc + 1) {
            Some(v) => match two_bytes(op, v) {
                Some(instr) => Ok((instr, 3)),
                None => Err(VmError::BadCode),
            },
            None => Err(VmError::BadCode),
        };
    }
    if op == 0x84 {
        if left < 3 {
            return Err(VmError::BadCode);
        }
        return Ok((Instr::Increment(code[pc + 1] as u16, extend_byte(code[pc + 2])), 3));
    }
    if op == 0xb9 {
        if left < 5 {
            return Err(VmError::BadCode);
        }
        return match read_u16(code, pc + 1) {
            Some(v) => Ok((Instr::Invoke(InvokeKind::Interface, v), 5)),
            None => Err(VmError::BadCode),
        };
    }
    if op == 0xc5 {
        if left < 4 {
            return Err(VmError::BadCode);
        }
        return match read_u16(code, pc + 1) {
            Some(v) => Ok((Instr::MultiNewArray(v, code[pc + 3]), 4)),
            None => Err(VmError::BadCode),
        };
    }
    if op == 0xc8 {
        return match read_i32(code, pc + 1) {
            Some(v) => Ok((Instr::Goto(v), 5)),
            None => Err(VmError::BadCode),
        };
    }
    if op == 0xc4 {
        if left < 2 {
            return Err(VmError::BadCode);
        }
        let widened = code[pc + 1];
        if widened == 0x84 {
            if left < 6 {
                return Err(VmError::BadCode);
            }
            let index = match read_u16(code, pc + 2) {
                Some(v) => v,
                None => { return Err(VmError::BadCode); },
            };
            let delta = match read_u16(code, pc + 4) {
                Some(v) => v,
                None => { return Err(VmError::BadCode); },
            };
            return Ok((Instr::Increment(index, extend_short(delta)), 6));
        }
        if wide(widened, 0).is_some() {
            if left < 4 {
                return Err(VmError::BadCode);
            }
            return match read_u16(code, pc + 2) {
                Some(index) => match wide(widened, index) {
                    Some(instr) => Ok((instr, 4)),
                    None => Err(VmError::BadCode),
                },
                None => Err(VmError::BadCode),
            };
        }
        return Err(VmError::UnsupportedOpcode(widened));
    }
    Err(VmError::UnsupportedOpcode(op))
}

} // verus!
