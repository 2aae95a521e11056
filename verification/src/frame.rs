//! Frames: the activation records of methods, and the instructions that
//! touch nothing but the frame they run in.

use vstd::prelude::*;
use vstd::string::*;

use crate::cell::{
    apply_int_binary, apply_int_shift, apply_long_binary, apply_long_shift, apply_narrow, cell_of,
    cond_holds, high_word, int_binary, int_of, int_shift, join_long, join_words, long_binary,
    long_of, long_order, long_shift, low_word, narrow, negate_int, negate_long, order_longs,
    split_long, test_cond, widen, widen_int, bits_of, Narrow,
};
use crate::descriptor::{argument_cells, MethodDescriptor, MethodDescriptorView};
use crate::error::VmError;
use crate::heap::zeroed;
use crate::instr::{Instr, StackOp};
use crate::klass::{index_of, resolve_method, Klass, MethodArea};
use crate::parse::{Attribute, CodeView, ExceptionTableItem, Method};
use crate::reader::{be32, read_i32, signed32};

verus! {

/// The Java exceptions that the machine itself raises.
#[derive(Clone, Copy, Debug, PartialEq, Eq, Structural)]
pub enum Throwable {
    /// `java/lang/ArithmeticException`: an integer division by zero.
    Arithmetic,
    /// `java/lang/NullPointerException`.
    NullPointer,
    /// `java/lang/ArrayIndexOutOfBoundsException`.
    ArrayIndex,
    /// `java/lang/ClassCastException`.
    ClassCast,
    /// `java/lang/NegativeArraySizeException`.
    NegativeArraySize,
}

/// How an instruction ended.
#[derive(Clone, Copy, Debug, PartialEq, Eq, Structural)]
pub enum Flow {
    /// It is done, and the instruction counter stands at the next one.
    Next,
    /// It raises an exception, and has changed nothing.
    Raise(Throwable),
}

/// The activation record of one method invocation.
#[derive(Debug)]
pub struct Frame {
    pub local_variables: Vec<u32>,
    pub operand_stack: Vec<u32>,
    /// The greatest depth that the operand stack may reach.
    pub max_stack: usize,
    /// Where the record of the class that declares the method stands in the
    /// method area; the frame resolves its constants through the pool of
    /// that record.
    pub constant_pool: usize,
    pub code_bytes: Option<Vec<u8>>,
    pub exception_table: Option<Vec<ExceptionTableItem>>,
    pub instruction_counter: usize,
    pub class_name: String,
    pub method_name: String,
    pub running_native: bool,
}

/// The part of a frame that instructions change.
pub struct FrameState {
    pub locals: Seq<u32>,
    pub stack: Seq<u32>,
    pub pc: int,
}

impl View for Frame {
    type V = FrameState;

    open spec fn view(&self) -> FrameState {
        FrameState {
            locals: self.local_variables@,
            stack: self.operand_stack@,
            pc: self.instruction_counter as int,
        }
    }
}

impl Frame {
    /// The operand stack is no deeper than the method allows; a native
    /// frame, and no other, is without code.
    pub open spec fn wf(&self) -> bool {
        &&& self.operand_stack@.len() <= self.max_stack
        &&& self.running_native == (self.code_bytes is None)
        &&& (self.code_bytes is Some) == (self.exception_table is Some)
    }

    /// What holds of the running frame of a thread while an exception is on
    /// its way: the topmost cell of its operand stack is the reference to
    /// the exception, which is not counted against what the method allows,
    /// so that the stack may be one cell deeper than that.
    pub open spec fn carrying(&self) -> bool {
        &&& 1 <= self.operand_stack@.len() <= self.max_stack + 1
        &&& self.running_native == (self.code_bytes is None)
        &&& (self.code_bytes is Some) == (self.exception_table is Some)
    }

    /// The code of the method; empty for a native method.
    pub open spec fn code(&self) -> Seq<u8> {
        match self.code_bytes {
            Some(bytes) => bytes@,
            None => Seq::empty(),
        }
    }

    /// Whether two frames are of the same invocation: they differ at most in
    /// local variables, operand stack and instruction counter.
    pub open spec fn same_method(&self, other: &Frame) -> bool {
        &&& self.max_stack == other.max_stack
        &&& self.constant_pool == other.constant_pool
        &&& self.code_bytes == other.code_bytes
        &&& self.exception_table == other.exception_table
        &&& self.class_name == other.class_name
        &&& self.method_name == other.method_name
        &&& self.running_native == other.running_native
        &&& self.local_variables@.len() == other.local_variables@.len()
    }
}

/// What an instruction makes of the state of a frame.
pub enum Effect {
    /// The new state.
    Next(FrameState),
    /// An exception to raise; the state is unchanged.
    Raise(Throwable),
}

/// Whether the instruction only computes on the operand stack: it pops a
/// fixed number of cells and pushes cells that depend on nothing else.
pub open spec fn is_stack_only(instr: Instr) -> bool {
    match instr {
        Instr::Nop | Instr::Push1(_) | Instr::Push2(_, _) | Instr::Stack(_) | Instr::IntBinary(_)
        | Instr::LongBinary(_) | Instr::IntNegate | Instr::LongNegate | Instr::IntShift(_)
        | Instr::LongShift(_) | Instr::Widen | Instr::Truncate | Instr::Narrow(_)
        | Instr::LongOrder | Instr::Monitor => true,
        _ => false,
    }
}

/// The number of cells that a stack-only instruction pops. A category-2
/// operand counts as two.
pub open spec fn operand_count(instr: Instr) -> nat {
    match instr {
        Instr::Stack(StackOp::Pop) | Instr::Stack(StackOp::Dup) => 1,
        Instr::Stack(StackOp::Pop2) | Instr::Stack(StackOp::DupX1) | Instr::Stack(StackOp::Dup2)
        | Instr::Stack(StackOp::Swap) => 2,
        Instr::Stack(StackOp::DupX2) | Instr::Stack(StackOp::Dup2X1) => 3,
        Instr::Stack(StackOp::Dup2X2) => 4,
        Instr::IntBinary(_) | Instr::IntShift(_) => 2,
        Instr::LongBinary(_) | Instr::LongOrder => 4,
        Instr::IntNegate | Instr::Widen | Instr::Narrow(_) | Instr::Monitor => 1,
        Instr::LongNegate | Instr::Truncate => 2,
        Instr::LongShift(_) => 3,
        _ => 0,
    }
}

/// The two cells of a 64-bit pattern, high word first.
pub open spec fn long_cells(b: u64) -> Seq<u32> {
    seq![high_word(b), low_word(b)]
}

/// The cells that a stack-only instruction pushes for the cells `o` that it
/// popped, deepest first; `None` where it divides by zero.
pub open spec fn results(instr: Instr, o: Seq<u32>) -> Option<Seq<u32>> {
    match instr {
        Instr::Push1(v) => Some(seq![v]),
        Instr::Push2(high, low) => Some(seq![high, low]),
        Instr::Stack(StackOp::Dup) => Some(seq![o[0], o[0]]),
        Instr::Stack(StackOp::DupX1) => Some(seq![o[1], o[0], o[1]]),
        Instr::Stack(StackOp::DupX2) => Some(seq![o[2], o[0], o[1], o[2]]),
        Instr::Stack(StackOp::Dup2) => Some(seq![o[0], o[1], o[0], o[1]]),
        Instr::Stack(StackOp::Dup2X1) => Some(seq![o[1], o[2], o[0], o[1], o[2]]),
        Instr::Stack(StackOp::Dup2X2) => Some(seq![o[2], o[3], o[0], o[1], o[2], o[3]]),
        Instr::Stack(StackOp::Swap) => Some(seq![o[1], o[0]]),
        Instr::IntBinary(op) => match int_binary(op, o[0], o[1]) {
            Some(v) => Some(seq![v]),
            None => None,
        },
        Instr::LongBinary(op) => match long_binary(
            op,
            join_words(o[0], o[1]),
            join_words(o[2], o[3]),
        ) {
            Some(v) => Some(long_cells(v)),
            None => None,
        },
        Instr::IntNegate => Some(seq![cell_of(-int_of(o[0]))]),
        Instr::LongNegate => Some(long_cells(bits_of(-long_of(join_words(o[0], o[1]))))),
        Instr::IntShift(op) => Some(seq![int_shift(op, o[0], o[1])]),
        Instr::LongShift(op) => Some(long_cells(long_shift(op, join_words(o[0], o[1]), o[2]))),
        Instr::Widen => Some(long_cells(widen(o[0]))),
        Instr::Truncate => Some(seq![o[1]]),
        Instr::Narrow(kind) => Some(seq![narrow(kind, o[0])]),
        Instr::LongOrder => Some(
            seq![long_order(join_words(o[0], o[1]), join_words(o[2], o[3]))],
        ),
        _ => Some(Seq::empty()),
    }
}

/// What a stack-only instruction of `length` bytes makes of a frame.
///
/// It fails with `StackUnderflow` where the stack holds fewer cells than it
/// pops, and with `StackOverflow` where its results would make the stack
/// deeper than `max_stack`; it raises `ArithmeticException` where it divides
/// by zero. Otherwise the popped cells give way to the results, and the
/// instruction counter moves on by `length`.
pub open spec fn stack_effect(instr: Instr, length: int, s: FrameState, max_stack: int) -> Result<
    Effect,
    VmError,
> {
    let n = operand_count(instr);
    if s.stack.len() < n {
        Err(VmError::StackUnderflow)
    } else {
        let kept = s.stack.subrange(0, s.stack.len() - n);
        match results(instr, s.stack.subrange(s.stack.len() - n, s.stack.len() as int)) {
            None => Ok(Effect::Raise(Throwable::Arithmetic)),
            Some(out) => if kept.len() + out.len() > max_stack {
                Err(VmError::StackOverflow)
            } else {
                Ok(Effect::Next(FrameState { locals: s.locals, stack: kept + out, pc: s.pc + length }))
            },
        }
    }
}

/// What holds of a frame after an instruction with effect `effect`: where
/// the effect is a new state, the frame has it and is otherwise as it was;
/// where the instruction fails or raises, the frame is unchanged.
pub open spec fn frame_follows(
    before: Frame,
    after: Frame,
    r: Result<Flow, VmError>,
    effect: Result<Effect, VmError>,
) -> bool {
    match effect {
        Ok(Effect::Next(s)) => r == Ok::<Flow, VmError>(Flow::Next) && after@ == s
            && after.same_method(&before),
        Ok(Effect::Raise(t)) => r == Ok::<Flow, VmError>(Flow::Raise(t)) && after == before,
        Err(e) => r == Err::<Flow, VmError>(e) && after == before,
    }
}

/// The number of cells that a stack-only instruction pops.
pub fn operands_of(instr: Instr) -> (r: usize)
    ensures
        r == operand_count(instr),
        r <= 4,
{
    match instr {
        Instr::Stack(op) => match op {
            StackOp::Pop => 1,
            StackOp::Dup => 1,
            StackOp::Pop2 => 2,
            StackOp::DupX1 => 2,
            StackOp::Dup2 => 2,
            StackOp::Swap => 2,
            StackOp::DupX2 => 3,
            StackOp::Dup2X1 => 3,
            StackOp::Dup2X2 => 4,
        },
        Instr::IntBinary(_) => 2,
        Instr::IntShift(_) => 2,
        Instr::LongBinary(_) => 4,
        Instr::LongOrder => 4,
        Instr::IntNegate => 1,
        Instr::Widen => 1,
        Instr::Narrow(_) => 1,
        Instr::Monitor => 1,
        Instr::LongNegate => 2,
        Instr::Truncate => 2,
        Instr::LongShift(_) => 3,
        _ => 0,
    }
}

/// A vector of the two cells of a 64-bit pattern.
fn cells_of_long(b: u64) -> (r: Vec<u32>)
    ensures
        r@ == long_cells(b),
{
    let (high, low) = split_long(b);
    let mut out: Vec<u32> = Vec::new();
    out.push(high);
    out.push(low);
    assert(out@ =~= long_cells(b));
    out
}

/// The cells that a stack-only instruction pushes for the cells it popped.
fn compute(instr: Instr, o: &Vec<u32>) -> (r: Option<Vec<u32>>)
    requires
        o@.len() == operand_count(instr),
    ensures
        match results(instr, o@) {
            Some(out) => r is Some && r->0@ == out,
            None => r is None,
        },
{
    let mut out: Vec<u32> = Vec::new();
    match instr {
        Instr::Push1(v) => {
            out.push(v);
        },
        Instr::Push2(high, low) => {
            out.push(high);
            out.push(low);
        },
        Instr::Stack(op) => match op {
            StackOp::Pop => {},
            StackOp::Pop2 => {},
            StackOp::Dup => {
                out.push(o[0]);
                out.push(o[0]);
            },
            StackOp::DupX1 => {
                out.push(o[1]);
                out.push(o[0]);
                out.push(o[1]);
            },
            StackOp::DupX2 => {
                out.push(o[2]);
                out.push(o[0]);
                out.push(o[1]);
                out.push(o[2]);
            },
            StackOp::Dup2 => {
                out.push(o[0]);
                out.push(o[1]);
                out.push(o[0]);
                out.push(o[1]);
            },
            StackOp::Dup2X1 => {
                out.push(o[1]);
                out.push(o[2]);
                out.push(o[0]);
                out.push(o[1]);
                out.push(o[2]);
            },
            StackOp::Dup2X2 => {
                out.push(o[2]);
                out.push(o[3]);
                out.push(o[0]);
                out.push(o[1]);
                out.push(o[2]);
                out.push(o[3]);
            },
            StackOp::Swap => {
                out.push(o[1]);
                out.push(o[0]);
            },
        },
        Instr::IntBinary(op) => match apply_int_binary(op, o[0], o[1]) {
            Some(v) => {
                out.push(v);
            },
            None => {
                return None;
            },
        },
        Instr::LongBinary(op) => match apply_long_binary(
            op,
            join_long(o[0], o[1]),
            join_long(o[2], o[3]),
        ) {
            Some(v) => {
                return Some(cells_of_long(v));
            },
            None => {
                return None;
            },
        },
        Instr::IntNegate => {
            out.push(negate_int(o[0]));
        },
        Instr::LongNegate => {
            return Some(cells_of_long(negate_long(join_long(o[0], o[1]))));
        },
        Instr::IntShift(op) => {
            out.push(apply_int_shift(op, o[0], o[1]));
        },
        Instr::LongShift(op) => {
            return Some(cells_of_long(apply_long_shift(op, join_long(o[0], o[1]), o[2])));
        },
        Instr::Widen => {
            return Some(cells_of_long(widen_int(o[0])));
        },
        Instr::Truncate => {
            out.push(o[1]);
        },
        Instr::Narrow(kind) => {
            out.push(apply_narrow(kind, o[0]));
        },
        Instr::LongOrder => {
            out.push(order_longs(join_long(o[0], o[1]), join_long(o[2], o[3])));
        },
        _ => {},
    }
    assert(out@ =~= results(instr, o@)->0);
    Some(out)
}

impl Frame {
    /// Takes the reference to an exception that is on its way on top of the
    /// operand stack, whatever the depth of the stack: the reference is not
    /// counted against what the method allows.
    pub fn carry(&mut self, reference: u32)
        requires
            old(self).wf(),
        ensures
            final(self)@ == (FrameState {
                locals: old(self)@.locals,
                stack: old(self)@.stack.push(reference),
                pc: old(self)@.pc,
            }),
            final(self).same_method(old(self)),
            final(self).carrying(),
    {
        self.operand_stack.push(reference);
    }

    /// Replaces the `pops` topmost cells of the operand stack by `out`, and
    /// moves the instruction counter to `next`.
    pub fn replace_top(&mut self, pops: usize, out: &Vec<u32>, next: usize)
        requires
            pops <= old(self).operand_stack@.len(),
            old(self).operand_stack@.len() - pops + out@.len() <= old(self).max_stack,
        ensures
            final(self)@ == (FrameState {
                locals: old(self)@.locals,
                stack: old(self)@.stack.subrange(0, old(self)@.stack.len() - pops) + out@,
                pc: next as int,
            }),
            final(self).same_method(old(self)),
            old(self).wf() ==> final(self).wf(),
    {
        let keep: usize = self.operand_stack.len() - pops;
        self.operand_stack.truncate(keep);
        let ghost kept = self.operand_stack@;
        let mut i: usize = 0;
        while i < out.len()
            invariant
                i <= out.len(),
                self.operand_stack@ == kept + out@.subrange(0, i as int),
                self.local_variables == old(self).local_variables,
                self.instruction_counter == old(self).instruction_counter,
                self.same_method(old(self)),
            decreases out.len() - i,
        {
            self.operand_stack.push(out[i]);
            i = i + 1;
            assert(self.operand_stack@ =~= kept + out@.subrange(0, i as int));
        }
        assert(out@.subrange(0, i as int) =~= out@);
        self.instruction_counter = next;
    }

    /// Runs a stack-only instruction of `length` bytes.
    pub fn run_stack_only(&mut self, instr: Instr, length: usize) -> (r: Result<Flow, VmError>)
        requires
            old(self).wf(),
            is_stack_only(instr),
            old(self).instruction_counter + length <= usize::MAX,
        ensures
            final(self).wf(),
            frame_follows(
                *old(self),
                *final(self),
                r,
                stack_effect(instr, length as int, old(self)@, old(self).max_stack as int),
            ),
    {
        let n = operands_of(instr);
        let depth = self.operand_stack.len();
        if depth < n {
            return Err(VmError::StackUnderflow);
        }
        let mut operands: Vec<u32> = Vec::new();
        let mut i: usize = depth - n;
        while i < depth
            invariant
                n <= depth,
                depth - n <= i <= depth,
                depth == self.operand_stack@.len(),
                operands@ == self.operand_stack@.subrange(depth - n, i as int),
            decreases depth - i,
        {
            operands.push(self.operand_stack[i]);
            i = i + 1;
            assert(operands@ =~= self.operand_stack@.subrange(depth - n, i as int));
        }
        let out = match compute(instr, &operands) {
            Some(out) => out,
            None => {
                return Ok(Flow::Raise(Throwable::Arithmetic));
            },
        };
        if out.len() > self.max_stack - (depth - n) {
            return Err(VmError::StackOverflow);
        }
        let next: usize = self.instruction_counter + length;
        self.replace_top(n, &out, next);
        Ok(Flow::Next)
    }
}

/// Whether the instruction touches the local variables and the operand
/// stack, and nothing else.
pub open spec fn is_local_access(instr: Instr) -> bool {
    match instr {
        Instr::Load1(_) | Instr::Load2(_) | Instr::Store1(_) | Instr::Store2(_) | Instr::Increment(
            _,
            _,
        ) => true,
        _ => false,
    }
}

/// What a load, a store or an increment of `length` bytes makes of a frame.
///
/// It fails with `BadLocal` where a local variable that it names does not
/// exist, then with `StackUnderflow` or `StackOverflow`. A category-2 value
/// takes two consecutive local variables and two consecutive cells of the
/// stack, high word first.
pub open spec fn local_effect(instr: Instr, length: int, s: FrameState, max_stack: int) -> Result<
    Effect,
    VmError,
> {
    let depth = s.stack.len() as int;
    match instr {
        Instr::Load1(i) => if i >= s.locals.len() {
            Err(VmError::BadLocal)
        } else if depth + 1 > max_stack {
            Err(VmError::StackOverflow)
        } else {
            Ok(
                Effect::Next(
                    FrameState {
                        locals: s.locals,
                        stack: s.stack.push(s.locals[i as int]),
                        pc: s.pc + length,
                    },
                ),
            )
        },
        Instr::Load2(i) => if i + 1 >= s.locals.len() {
            Err(VmError::BadLocal)
        } else if depth + 2 > max_stack {
            Err(VmError::StackOverflow)
        } else {
            Ok(
                Effect::Next(
                    FrameState {
                        locals: s.locals,
                        stack: s.stack.push(s.locals[i as int]).push(s.locals[i + 1]),
                        pc: s.pc + length,
                    },
                ),
            )
        },
        Instr::Store1(i) => if i >= s.locals.len() {
            Err(VmError::BadLocal)
        } else if depth < 1 {
            Err(VmError::StackUnderflow)
        } else {
            Ok(
                Effect::Next(
                    FrameState {
                        locals: s.locals.update(i as int, s.stack[depth - 1]),
                        stack: s.stack.subrange(0, depth - 1),
                        pc: s.pc + length,
                    },
                ),
            )
        },
        Instr::Store2(i) => if i + 1 >= s.locals.len() {
            Err(VmError::BadLocal)
        } else if depth < 2 {
            Err(VmError::StackUnderflow)
        } else {
            Ok(
                Effect::Next(
                    FrameState {
                        locals: s.locals.update(i as int, s.stack[depth - 2]).update(
                            i + 1,
                            s.stack[depth - 1],
                        ),
                        stack: s.stack.subrange(0, depth - 2),
                        pc: s.pc + length,
                    },
                ),
            )
        },
        Instr::Increment(i, delta) => if i >= s.locals.len() {
            Err(VmError::BadLocal)
        } else {
            Ok(
                Effect::Next(
                    FrameState {
                        locals: s.locals.update(
                            i as int,
                            cell_of(int_of(s.locals[i as int]) + int_of(delta)),
                        ),
                        stack: s.stack,
                        pc: s.pc + length,
                    },
                ),
            )
        },
        _ => Err(VmError::Unexpected),
    }
}

/// Whether the instruction is a branch with its offset among its operands.
pub open spec fn is_branch(instr: Instr) -> bool {
    match instr {
        Instr::If(_, _) | Instr::IfInt(_, _) | Instr::IfReference(_, _) | Instr::IfNull(_, _)
        | Instr::Goto(_) => true,
        _ => false,
    }
}

/// The state after a branch instruction that has popped `popped` cells:
/// at `pc + offset` where the branch is taken, at `pc + length` where it is
/// not. A branch that is taken to a place outside the code fails with
/// `BadCode`.
pub open spec fn jump(
    s: FrameState,
    popped: int,
    taken: bool,
    offset: int,
    length: int,
    code_len: int,
) -> Result<Effect, VmError> {
    if s.stack.len() < popped {
        Err(VmError::StackUnderflow)
    } else if taken && !(0 <= s.pc + offset < code_len) {
        Err(VmError::BadCode)
    } else {
        Ok(
            Effect::Next(
                FrameState {
                    locals: s.locals,
                    stack: s.stack.subrange(0, s.stack.len() - popped),
                    pc: if taken {
                        s.pc + offset
                    } else {
                        s.pc + length
                    },
                },
            ),
        )
    }
}

/// What a branch of `length` bytes makes of a frame whose code has
/// `code_len` bytes. The offset counts from the address of the branch
/// itself.
pub open spec fn branch_effect(instr: Instr, length: int, s: FrameState, code_len: int) -> Result<
    Effect,
    VmError,
> {
    let depth = s.stack.len() as int;
    match instr {
        Instr::If(c, offset) => jump(
            s,
            1,
            depth >= 1 && cond_holds(c, int_of(s.stack[depth - 1]), 0),
            offset as int,
            length,
            code_len,
        ),
        Instr::IfInt(c, offset) => jump(
            s,
            2,
            depth >= 2 && cond_holds(c, int_of(s.stack[depth - 2]), int_of(s.stack[depth - 1])),
            offset as int,
            length,
            code_len,
        ),
        Instr::IfReference(equal, offset) => jump(
            s,
            2,
            depth >= 2 && (s.stack[depth - 2] == s.stack[depth - 1]) == equal,
            offset as int,
            length,
            code_len,
        ),
        Instr::IfNull(null, offset) => jump(
            s,
            1,
            depth >= 1 && (s.stack[depth - 1] == 0) == null,
            offset as int,
            length,
            code_len,
        ),
        Instr::Goto(offset) => jump(s, 0, true, offset as int, length, code_len),
        _ => Err(VmError::Unexpected),
    }
}

/// Where the operands of a switch that stands at `pc` begin: at the next
/// address after the opcode that is a multiple of 4.
pub open spec fn switch_base(pc: int) -> int {
    pc + 1 + (3 - pc % 4)
}

/// The signed 32-bit number at `at`.
pub open spec fn word_at(code: Seq<u8>, at: int) -> int {
    signed32(be32(code, at))
}

/// The offset that a `tableswitch` at `pc` gives for `key`: that of the
/// table entry for the key where the key lies between the low and the high
/// bound, the default otherwise. `None` where the operands overrun the code
/// or the bounds are in the wrong order.
pub open spec fn table_offset(code: Seq<u8>, pc: int, key: int) -> Option<int> {
    let base = switch_base(pc);
    if base + 12 > code.len() {
        None
    } else {
        let low = word_at(code, base + 4);
        let high = word_at(code, base + 8);
        if low > high {
            None
        } else if key < low || key > high {
            Some(word_at(code, base))
        } else if base + 12 + 4 * (key - low) + 4 > code.len() {
            None
        } else {
            Some(word_at(code, base + 12 + 4 * (key - low)))
        }
    }
}

/// The position of the first of the `n` pairs at `at` whose match equals
/// `key`.
pub open spec fn pair_index(code: Seq<u8>, at: int, n: int, key: int) -> Option<int>
    decreases n,
{
    if n <= 0 {
        None
    } else {
        match pair_index(code, at, n - 1, key) {
            Some(k) => Some(k),
            None => if word_at(code, at + 8 * (n - 1)) == key {
                Some(n - 1)
            } else {
                None
            },
        }
    }
}

/// The offset that a `lookupswitch` at `pc` gives for `key`: that of the
/// first pair whose match is the key, the default where there is none.
/// `None` where the operands overrun the code or the number of pairs is
/// negative.
pub open spec fn lookup_offset(code: Seq<u8>, pc: int, key: int) -> Option<int> {
    let base = switch_base(pc);
    if base + 8 > code.len() {
        None
    } else {
        let n = word_at(code, base + 4);
        if n < 0 || base + 8 + 8 * n > code.len() {
            None
        } else {
            match pair_index(code, base + 8, n, key) {
                Some(k) => Some(word_at(code, base + 8 + 8 * k + 4)),
                None => Some(word_at(code, base)),
            }
        }
    }
}

/// What a switch makes of a frame: it pops the key and branches by the
/// offset that its operands give for it.
pub open spec fn switch_effect(instr: Instr, s: FrameState, code: Seq<u8>) -> Result<Effect, VmError> {
    let depth = s.stack.len() as int;
    if depth < 1 {
        Err(VmError::StackUnderflow)
    } else {
        let key = int_of(s.stack[depth - 1]);
        let found = if instr == Instr::TableSwitch {
            table_offset(code, s.pc, key)
        } else {
            lookup_offset(code, s.pc, key)
        };
        match found {
            None => Err(VmError::BadCode),
            Some(offset) => jump(s, 1, true, offset, 0, code.len() as int),
        }
    }
}

/// A pair found among the first `n` is the pair found among all.
proof fn lemma_pair_index_prefix(code: Seq<u8>, at: int, n: int, total: int, key: int)
    requires
        0 <= n <= total,
    ensures
        pair_index(code, at, n, key) is Some ==> pair_index(code, at, total, key) == pair_index(
            code,
            at,
            n,
            key,
        ),
    decreases total - n,
{
    if n < total {
        lemma_pair_index_prefix(code, at, n + 1, total, key);
    }
}

impl Frame {
    /// Runs a load, a store or an increment of `length` bytes.
    pub fn run_local_access(&mut self, instr: Instr, length: usize) -> (r: Result<Flow, VmError>)
        requires
            old(self).wf(),
            is_local_access(instr),
            old(self).instruction_counter + length <= usize::MAX,
        ensures
            final(self).wf(),
            frame_follows(
                *old(self),
                *final(self),
                r,
                local_effect(instr, length as int, old(self)@, old(self).max_stack as int),
            ),
    {
        let depth = self.operand_stack.len();
        let count = self.local_variables.len();
        match instr {
            Instr::Load1(i) => {
                let i = i as usize;
                if i >= count {
                    return Err(VmError::BadLocal);
                }
                if depth >= self.max_stack {
                    return Err(VmError::StackOverflow);
                }
                let v = self.local_variables[i];
                self.operand_stack.push(v);
            },
            Instr::Load2(i) => {
                let i = i as usize;
                if i + 1 >= count {
                    return Err(VmError::BadLocal);
                }
                if self.max_stack < 2 || depth > self.max_stack - 2 {
                    return Err(VmError::StackOverflow);
                }
                let high = self.local_variables[i];
                let low = self.local_variables[i + 1];
                self.operand_stack.push(high);
                self.operand_stack.push(low);
            },
            Instr::Store1(i) => {
                let i = i as usize;
                if i >= count {
                    return Err(VmError::BadLocal);
                }
                if depth < 1 {
                    return Err(VmError::StackUnderflow);
                }
                let v = self.operand_stack[depth - 1];
                self.local_variables[i] = v;
                self.operand_stack.truncate(depth - 1);
            },
            Instr::Store2(i) => {
                let i = i as usize;
                if i + 1 >= count {
                    return Err(VmError::BadLocal);
                }
                if depth < 2 {
                    return Err(VmError::StackUnderflow);
                }
                let high = self.operand_stack[depth - 2];
                let low = self.operand_stack[depth - 1];
                self.local_variables[i] = high;
                self.local_variables[i + 1] = low;
                self.operand_stack.truncate(depth - 2);
            },
            Instr::Increment(i, delta) => {
                let i = i as usize;
                if i >= count {
                    return Err(VmError::BadLocal);
                }
                let v = self.local_variables[i];
                self.local_variables[i] = v.wrapping_add(delta);
            },
            _ => {
                return Err(VmError::Unexpected);
            },
        }
        self.instruction_counter = self.instruction_counter + length;
        Ok(Flow::Next)
    }

    /// Pops `popped` cells and moves the instruction counter: by `offset`
    /// where `taken`, by `length` where not.
    fn jump_by(&mut self, popped: usize, taken: bool, offset: i32, length: usize) -> (r: Result<
        Flow,
        VmError,
    >)
        requires
            old(self).wf(),
            old(self).instruction_counter + length <= usize::MAX,
        ensures
            final(self).wf(),
            frame_follows(
                *old(self),
                *final(self),
                r,
                jump(
                    old(self)@,
                    popped as int,
                    taken,
                    offset as int,
                    length as int,
                    old(self).code().len() as int,
                ),
            ),
    {
        let depth = self.operand_stack.len();
        if depth < popped {
            return Err(VmError::StackUnderflow);
        }
        let pc = self.instruction_counter;
        let next: usize = if taken {
            let size: usize = match &self.code_bytes {
                Some(bytes) => bytes.len(),
                None => 0,
            };
            let target: usize = if offset >= 0 {
                let forward = offset as usize;
                if forward >= size || pc >= size - forward {
                    return Err(VmError::BadCode);
                }
                pc + forward
            } else {
                let backward: usize = (-(offset as i64)) as usize;
                if backward > pc {
                    return Err(VmError::BadCode);
                }
                pc - backward
            };
            if target >= size {
                return Err(VmError::BadCode);
            }
            target
        } else {
            pc + length
        };
        self.operand_stack.truncate(depth - popped);
        self.instruction_counter = next;
        Ok(Flow::Next)
    }

    /// Runs a branch of `length` bytes.
    pub fn run_branch(&mut self, instr: Instr, length: usize) -> (r: Result<Flow, VmError>)
        requires
            old(self).wf(),
            is_branch(instr),
            old(self).instruction_counter + length <= usize::MAX,
        ensures
            final(self).wf(),
            frame_follows(
                *old(self),
                *final(self),
                r,
                branch_effect(
                    instr,
                    length as int,
                    old(self)@,
                    old(self).code().len() as int,
                ),
            ),
    {
        let depth = self.operand_stack.len();
        match instr {
            Instr::If(c, offset) => {
                let taken = depth >= 1 && test_cond(c, self.operand_stack[depth - 1], 0);
                self.jump_by(1, taken, offset, length)
            },
            Instr::IfInt(c, offset) => {
                let taken = depth >= 2 && test_cond(
                    c,
                    self.operand_stack[depth - 2],
                    self.operand_stack[depth - 1],
                );
                self.jump_by(2, taken, offset, length)
            },
            Instr::IfReference(equal, offset) => {
                let taken = depth >= 2 && (self.operand_stack[depth - 2] == self.operand_stack[depth
                    - 1]) == equal;
                self.jump_by(2, taken, offset, length)
            },
            Instr::IfNull(null, offset) => {
                let taken = depth >= 1 && (self.operand_stack[depth - 1] == 0) == null;
                self.jump_by(1, taken, offset, length)
            },
            Instr::Goto(offset) => self.jump_by(0, true, offset, length),
            _ => Err(VmError::Unexpected),
        }
    }
}

/// The signed 32-bit number at `at`, or `None` where it overruns the code.
fn read_word(code: &[u8], at: usize) -> (r: Option<i32>)
    ensures
        r is Some <==> at + 4 <= code@.len(),
        r is Some ==> r->0 as int == word_at(code@, at as int),
{
    read_i32(code, at)
}

/// The offset that a `tableswitch` at `pc` gives for `key`.
fn table_lookup(code: &[u8], pc: usize, key: i32) -> (r: Option<i32>)
    requires
        pc < code@.len(),
    ensures
        match table_offset(code@, pc as int, key as int) {
            Some(offset) => r == Some(offset as i32) && i32::MIN <= offset <= i32::MAX,
            None => r is None,
        },
{
    let size = code.len();
    let pad: usize = 3 - pc % 4;
    if size - pc < pad + 13 {
        return None;
    }
    let base: usize = pc + 1 + pad;
    let default = match read_word(code, base) {
        Some(v) => v,
        None => { return None; },
    };
    let low = match read_word(code, base + 4) {
        Some(v) => v,
        None => { return None; },
    };
    let high = match read_word(code, base + 8) {
        Some(v) => v,
        None => { return None; },
    };
    if low > high {
        return None;
    }
    if key < low || key > high {
        return Some(default);
    }
    let slot: u64 = (key as i64 - low as i64) as u64;
    let room: u64 = (size - base - 12) as u64;
    if room < 4 || slot > (room - 4) / 4 {
        return None;
    }
    read_word(code, base + 12 + 4 * (slot as usize))
}

/// The offset that a `lookupswitch` at `pc` gives for `key`.
#[verifier::loop_isolation(false)]
fn pair_lookup(code: &[u8], pc: usize, key: i32) -> (r: Option<i32>)
    requires
        pc < code@.len(),
    ensures
        match lookup_offset(code@, pc as int, key as int) {
            Some(offset) => r == Some(offset as i32) && i32::MIN <= offset <= i32::MAX,
            None => r is None,
        },
{
    let size = code.len();
    let pad: usize = 3 - pc % 4;
    if size - pc < pad + 9 {
        return None;
    }
    let base: usize = pc + 1 + pad;
    let default = match read_word(code, base) {
        Some(v) => v,
        None => { return None; },
    };
    let n = match read_word(code, base + 4) {
        Some(v) => v,
        None => { return None; },
    };
    if n < 0 {
        return None;
    }
    let pairs: usize = n as usize;
    if pairs > (size - base - 8) / 8 {
        return None;
    }
    let first: usize = base + 8;
    let mut k: usize = 0;
    while k < pairs
        invariant
            k <= pairs,
            size == code@.len(),
            first + 8 * pairs <= size,
            pair_index(code@, first as int, k as int, key as int) is None,
        decreases pairs - k,
    {
        proof {
            lemma_pair_index_prefix(code@, first as int, k + 1, pairs as int, key as int);
        }
        let candidate = match read_word(code, first + 8 * k) {
            Some(v) => v,
            None => { return None; },
        };
        if candidate == key {
            return read_word(code, first + 8 * k + 4);
        }
        k = k + 1;
    }
    Some(default)
}

impl Frame {
    /// Runs a `tableswitch` or a `lookupswitch`.
    pub fn run_switch(&mut self, instr: Instr) -> (r: Result<Flow, VmError>)
        requires
            old(self).wf(),
            instr == Instr::TableSwitch || instr == Instr::LookupSwitch,
            old(self).instruction_counter < old(self).code().len(),
        ensures
            final(self).wf(),
            frame_follows(
                *old(self),
                *final(self),
                r,
                switch_effect(instr, old(self)@, old(self).code()),
            ),
    {
        let depth = self.operand_stack.len();
        if depth < 1 {
            return Err(VmError::StackUnderflow);
        }
        let key = crate::cell::to_signed(self.operand_stack[depth - 1]);
        let found = match &self.code_bytes {
            Some(bytes) => match instr {
                Instr::TableSwitch => table_lookup(bytes.as_slice(), self.instruction_counter, key),
                _ => pair_lookup(bytes.as_slice(), self.instruction_counter, key),
            },
            None => None,
        };
        match found {
            Some(offset) => self.jump_by(1, true, offset, 0),
            None => Err(VmError::BadCode),
        }
    }
}

/// The code of the first Code attribute in a list of attributes.
pub open spec fn first_code(attributes: Seq<Attribute>) -> Option<CodeView>
    decreases attributes.len(),
{
    if attributes.len() == 0 {
        None
    } else {
        match first_code(attributes.drop_last()) {
            Some(code) => Some(code),
            None => attributes.last()@,
        }
    }
}

/// Code found among the first `n` attributes is the code found among all.
proof fn lemma_first_code_prefix(attributes: Seq<Attribute>, n: int)
    requires
        0 <= n <= attributes.len(),
    ensures
        first_code(attributes.subrange(0, n)) is Some ==> first_code(attributes) == first_code(
            attributes.subrange(0, n),
        ),
    decreases attributes.len() - n,
{
    if n == attributes.len() {
        assert(attributes.subrange(0, n) =~= attributes);
    } else {
        lemma_first_code_prefix(attributes, n + 1);
        assert(attributes.subrange(0, n + 1).drop_last() =~= attributes.subrange(0, n));
    }
}

/// The number of local variables that the arguments of a native method
/// take: one for the receiver, unless the method is static, and the cells
/// of the parameters.
pub open spec fn native_locals(method: Method) -> nat {
    argument_cells(method.descriptor.parameter_descriptors@) + if method.access.is_static {
        0nat
    } else {
        1nat
    }
}

/// Why method `m` of the class at position `c` cannot be invoked, if it
/// cannot: the class is not linked (`ClassNotFound`), the method is native
/// and its arguments are more than the machine can count (`OutOfMemory`),
/// or it is not native and has no code (`NoSuchMethod`).
pub open spec fn invocation_failure(classes: Seq<Klass>, c: int, m: int) -> Option<VmError> {
    let klass = classes[c]->Instance_0;
    let method = klass.parsed_class.methods@[m];
    if klass.constant_pool is None {
        Some(VmError::ClassNotFound)
    } else if method.access.native {
        if native_locals(method) > usize::MAX {
            Some(VmError::OutOfMemory)
        } else {
            None
        }
    } else if first_code(method.attributes@) is None {
        Some(VmError::NoSuchMethod)
    } else {
        None
    }
}

/// The method that a new frame is for: the position of the class that
/// declares it, found by method resolution from the class named
/// `class_name`, and the position of the method in that class.
///
/// Fails with `ClassNotFound` where no class of that name is loaded, with
/// `NoSuchMethod` where the superclass chain ends without the method, and
/// as `invocation_failure` says.
pub open spec fn frame_plan(
    classes: Seq<Klass>,
    class_name: Seq<char>,
    method_name: Seq<char>,
    descriptor: MethodDescriptorView,
) -> Result<(int, int), VmError> {
    match index_of(classes, class_name) {
        None => Err(VmError::ClassNotFound),
        Some(start) => match resolve_method(classes, start, method_name, descriptor) {
            None => Err(VmError::NoSuchMethod),
            Some((c, m)) => match invocation_failure(classes, c, m) {
                Some(e) => Err(e),
                None => Ok((c, m)),
            },
        }
    }
}

/// Whether `frame` is the frame with which the invocation of method `m` of
/// the class at position `c` begins: an empty operand stack, zeroed local
/// variables, and the instruction counter at 0. A native method has no
/// code, and as many local variables as its arguments take; any other has
/// the code, the exception table, `max_stack` and `max_locals` of its
/// first Code attribute.
pub open spec fn is_fresh_frame(classes: Seq<Klass>, c: int, m: int, frame: Frame) -> bool {
    let klass = classes[c]->Instance_0;
    let method = klass.parsed_class.methods@[m];
    &&& frame.wf()
    &&& frame.constant_pool == c
    &&& frame.class_name@ == klass.name@
    &&& frame.method_name@ == method.name@
    &&& frame.instruction_counter == 0
    &&& frame.operand_stack@.len() == 0
    &&& if method.access.native {
        &&& frame.code_bytes is None
        &&& frame.max_stack == 0
        &&& frame.local_variables@ == Seq::new(native_locals(method), |i: int| 0u32)
    } else {
        let code = first_code(method.attributes@)->0;
        &&& frame.code_bytes is Some
        &&& frame.code_bytes->0@ == code.bytes
        &&& frame.exception_table->0@ == code.exception_table
        &&& frame.max_stack == code.max_stack
        &&& frame.local_variables@ == Seq::new(code.max_locals as nat, |i: int| 0u32)
    }
}

/// The first Code attribute of a list: its parts.
fn find_code(attributes: &Vec<Attribute>) -> (r: Option<(Vec<u8>, usize, usize, Vec<ExceptionTableItem>)>)
    ensures
        match (first_code(attributes@), r) {
            (Some(code), Some((bytes, max_stack, max_locals, table))) => {
                &&& bytes@ == code.bytes
                &&& max_stack == code.max_stack
                &&& max_locals == code.max_locals
                &&& table@ == code.exception_table
            },
            (None, None) => true,
            _ => false,
        },
{
    let mut i: usize = 0;
    while i < attributes.len()
        invariant
            i <= attributes.len(),
            first_code(attributes@.subrange(0, i as int)) is None,
        decreases attributes.len() - i,
    {
        proof {
            assert(attributes@.subrange(0, i + 1).drop_last() =~= attributes@.subrange(0, i as int));
            lemma_first_code_prefix(attributes@, i + 1);
        }
        match attributes[i].as_code() {
            Some(parts) => {
                return Some(parts);
            },
            None => {},
        }
        i = i + 1;
    }
    assert(attributes@.subrange(0, i as int) =~= attributes@);
    None
}

impl Frame {
    /// Makes the frame for an invocation of method `m` of the class at
    /// position `c`.
    pub fn for_method(method_area: &MethodArea, c: usize, m: usize) -> (r: Result<Frame, VmError>)
        requires
            method_area.wf(),
            c < method_area.classes@.len(),
            method_area.classes@[c as int] is Instance,
            m < method_area.classes@[c as int]->Instance_0.parsed_class.methods@.len(),
        ensures
            match invocation_failure(method_area.classes@, c as int, m as int) {
                None => r is Ok && is_fresh_frame(method_area.classes@, c as int, m as int, r->Ok_0),
                Some(e) => r == Err::<Frame, VmError>(e),
            },
    {
        match &method_area.classes[c] {
            Klass::Array(_) => Err(VmError::NoSuchMethod),
            Klass::Instance(klass) => {
                if klass.constant_pool.is_none() {
                    return Err(VmError::ClassNotFound);
                }
                let method = &klass.parsed_class.methods[m];
                if method.access.native {
                    let arguments = match method.descriptor.argument_width() {
                        Some(n) => n,
                        None => {
                            return Err(VmError::OutOfMemory);
                        },
                    };
                    let receiver: usize = if method.access.is_static {
                        0
                    } else {
                        1
                    };
                    if arguments > usize::MAX - receiver {
                        return Err(VmError::OutOfMemory);
                    }
                    Ok(
                        Frame {
                            local_variables: zeroed(arguments + receiver),
                            operand_stack: Vec::new(),
                            max_stack: 0,
                            constant_pool: c,
                            code_bytes: None,
                            exception_table: None,
                            instruction_counter: 0,
                            class_name: klass.name.clone(),
                            method_name: method.name.clone(),
                            running_native: true,
                        },
                    )
                } else {
                    let (bytes, max_stack, max_locals, table) = match find_code(&method.attributes) {
                        Some(parts) => parts,
                        None => {
                            return Err(VmError::NoSuchMethod);
                        },
                    };
                    Ok(
                        Frame {
                            local_variables: zeroed(max_locals),
                            operand_stack: Vec::new(),
                            max_stack,
                            constant_pool: c,
                            code_bytes: Some(bytes),
                            exception_table: Some(table),
                            instruction_counter: 0,
                            class_name: klass.name.clone(),
                            method_name: method.name.clone(),
                            running_native: false,
                        },
                    )
                }
            },
        }
    }

    /// Makes the frame for an invocation of the method named `method_name`
    /// with descriptor `type_descriptor`, looked for in the class named
    /// `class_name` and then up its superclass chain.
    pub fn new(
        method_area: &MethodArea,
        class_name: &String,
        method_name: &String,
        type_descriptor: &MethodDescriptor,
    ) -> (r: Result<Frame, VmError>)
        requires
            method_area.wf(),
        ensures
            match frame_plan(method_area.classes@, class_name@, method_name@, type_descriptor@) {
                Ok((c, m)) => r is Ok && is_fresh_frame(method_area.classes@, c, m, r->Ok_0),
                Err(e) => r == Err::<Frame, VmError>(e),
            },
    {
        let start = match method_area.find(class_name.as_str()) {
            Some(i) => i,
            None => {
                return Err(VmError::ClassNotFound);
            },
        };
        match method_area.lookup_method(start, method_name, type_descriptor) {
            Some((c, m)) => Frame::for_method(method_area, c, m),
            None => Err(VmError::NoSuchMethod),
        }
    }
}

} // verus!
