//! One step of a thread: what the instruction at the instruction counter of
//! the running frame does, by its kind.

use vstd::prelude::*;
use vstd::string::*;

use crate::constants::{
    check_cast_effect, instance_of_effect, ldc2_effect, ldc_post, run_cast, run_ldc, run_ldc2,
};
use crate::error::VmError;
use crate::fields::{
    field_key, get_field_effect, get_static_post, put_field_effect, put_field_objects,
    put_static_post, run_get_field, run_get_static, run_put_field, run_put_static,
};
use crate::frame::{
    branch_effect, is_branch, is_local_access, is_stack_only, local_effect, stack_effect,
    switch_effect, Frame, FrameState, Throwable,
};
use crate::instr::{decode, spec_decode, FloatOp, Instr};
use crate::interp::{
    new_array_post, new_post, reference_array_post, run_new, run_new_array, run_reference_array,
    same_but_pool, step_follows, step_from, Step,
};
use crate::memory::GlobalMemory;
use crate::native::{native_post, run_native_methods};
use crate::objects::{
    array_length_effect, array_load_effect, array_store_effect, array_store_objects,
    run_array_length, run_array_load, run_array_store,
};
use crate::thread::{
    float_request, handle_post, invoke_post, lemma_same_but_pool_refl, raise_post, return_post,
    top_changed, Thread,
};

verus! {

/// What an instruction of `length` bytes that stays in its frame does to
/// the frame and to the memory, by its kind. `frame0` is the frame before
/// and `frame1` the frame after, `r` what the instruction returns.
pub open spec fn frame_post(
    instr: Instr,
    length: int,
    before: GlobalMemory,
    after: GlobalMemory,
    frame0: Frame,
    frame1: Frame,
    r: Result<Step, VmError>,
) -> bool {
    let s = frame0@;
    let max_stack = frame0.max_stack as int;
    let class = frame0.constant_pool as int;
    let objects = before.heap.objects();
    let classes = before.method_area.classes@;
    let constant = |index: u16| before.method_area.spec_constant(class, index as int);
    match instr {
        Instr::ArrayLoad(kind) => after == before && step_follows(
            frame0,
            frame1,
            r,
            array_load_effect(kind, length, s, objects),
        ),
        Instr::ArrayStore(kind) => {
            &&& after.method_area == before.method_area
            &&& after.loading == before.loading
            &&& step_follows(frame0, frame1, r, array_store_effect(kind, length, s, objects))
            &&& r == Ok::<Step, VmError>(Step::Next) ==> after.heap.objects() == array_store_objects(
                kind,
                s,
                objects,
            )
            &&& r != Ok::<Step, VmError>(Step::Next) ==> after.heap == before.heap
        },
        Instr::ArrayLength => after == before && step_follows(
            frame0,
            frame1,
            r,
            array_length_effect(length, s, objects),
        ),
        Instr::New(index) => new_post(before, after, frame0, frame1, index, length, r),
        Instr::NewArray(atype) => {
            &&& after.method_area == before.method_area
            &&& after.loading == before.loading
            &&& new_array_post(before.heap, after.heap, frame0, frame1, atype, length, r)
        },
        Instr::ANewArray(index) => reference_array_post(
            before,
            after,
            frame0,
            frame1,
            index,
            false,
            length,
            r,
        ),
        Instr::MultiNewArray(index, dimensions) => if dimensions == 1 {
            reference_array_post(before, after, frame0, frame1, index, true, length, r)
        } else {
            r == Err::<Step, VmError>(VmError::UnsupportedOpcode(0xc5)) && frame1 == frame0 && after
                == before
        },
        Instr::GetStatic(index) => get_static_post(before, after, frame0, frame1, index, length, r),
        Instr::PutStatic(index) => put_static_post(before, after, frame0, frame1, index, length, r),
        Instr::GetField(index) => same_but_pool(before, after, class) && step_follows(
            frame0,
            frame1,
            r,
            get_field_effect(classes, objects, field_key(constant(index)), s, max_stack, length),
        ),
        Instr::PutField(index) => {
            &&& after.loading == before.loading
            &&& before.method_area.differs_in_pool(&after.method_area, class)
            &&& step_follows(
                frame0,
                frame1,
                r,
                put_field_effect(classes, objects, field_key(constant(index)), s, length),
            )
            &&& r == Ok::<Step, VmError>(Step::Next) ==> after.heap.objects() == put_field_objects(
                classes,
                objects,
                field_key(constant(index))->0,
                s,
            )
            &&& r != Ok::<Step, VmError>(Step::Next) ==> after.heap == before.heap
        },
        Instr::Ldc(index) => ldc_post(before, after, frame0, frame1, index, length, r),
        Instr::Ldc2(index) => same_but_pool(before, after, class) && step_follows(
            frame0,
            frame1,
            r,
            ldc2_effect(constant(index), s, max_stack, length),
        ),
        Instr::CheckCast(index) => same_but_pool(before, after, class) && step_follows(
            frame0,
            frame1,
            r,
            check_cast_effect(classes, objects, constant(index), s, length),
        ),
        Instr::InstanceOf(index) => same_but_pool(before, after, class) && step_follows(
            frame0,
            frame1,
            r,
            instance_of_effect(classes, objects, constant(index), s, length),
        ),
        Instr::TableSwitch | Instr::LookupSwitch => after == before && step_follows(
            frame0,
            frame1,
            r,
            switch_effect(instr, s, frame0.code()),
        ),
        _ => after == before && step_follows(
            frame0,
            frame1,
            r,
            if is_stack_only(instr) {
                stack_effect(instr, length, s, max_stack)
            } else if is_local_access(instr) {
                local_effect(instr, length, s, max_stack)
            } else if is_branch(instr) {
                branch_effect(instr, length, s, frame0.code().len() as int)
            } else {
                Err(VmError::Unexpected)
            },
        ),
    }
}

/// Runs an instruction that stays in its frame.
pub fn run_in_frame(frame: &mut Frame, gm: &mut GlobalMemory, instr: Instr, length: usize) -> (r:
    Result<Step, VmError>)
    requires
        old(frame).wf(),
        old(gm).wf(),
        old(frame).instruction_counter < old(frame).code().len(),
        old(frame).instruction_counter + length <= usize::MAX,
    ensures
        final(frame).wf(),
        final(gm).wf(),
        frame_post(instr, length as int, *old(gm), *final(gm), *old(frame), *final(frame), r),
        r is Ok ==> r->Ok_0.wf(),
{
    proof {
        lemma_same_but_pool_refl(*gm, frame.constant_pool as int);
    }
    match instr {
        Instr::ArrayLoad(kind) => step_from(run_array_load(frame, &gm.heap, kind, length)),
        Instr::ArrayStore(kind) => step_from(run_array_store(frame, &mut gm.heap, kind, length)),
        Instr::ArrayLength => step_from(run_array_length(frame, &gm.heap, length)),
        Instr::New(index) => run_new(frame, gm, index, length),
        Instr::NewArray(atype) => run_new_array(frame, &mut gm.heap, atype, length),
        Instr::ANewArray(index) => run_reference_array(frame, gm, index, false, length),
        Instr::MultiNewArray(index, dimensions) => {
            if dimensions == 1 {
                run_reference_array(frame, gm, index, true, length)
            } else {
                Err(VmError::UnsupportedOpcode(0xc5))
            }
        },
        Instr::GetStatic(index) => run_get_static(frame, gm, index, length),
        Instr::PutStatic(index) => run_put_static(frame, gm, index, length),
        Instr::GetField(index) => run_get_field(frame, gm, index, length),
        Instr::PutField(index) => run_put_field(frame, gm, index, length),
        Instr::Ldc(index) => run_ldc(frame, gm, index, length),
        Instr::Ldc2(index) => run_ldc2(frame, gm, index, length),
        Instr::CheckCast(index) => run_cast(frame, gm, index, false, length),
        Instr::InstanceOf(index) => run_cast(frame, gm, index, true, length),
        Instr::TableSwitch => step_from(frame.run_switch(instr)),
        Instr::LookupSwitch => step_from(frame.run_switch(instr)),
        Instr::Load1(_) => step_from(frame.run_local_access(instr, length)),
        Instr::Load2(_) => step_from(frame.run_local_access(instr, length)),
        Instr::Store1(_) => step_from(frame.run_local_access(instr, length)),
        Instr::Store2(_) => step_from(frame.run_local_access(instr, length)),
        Instr::Increment(_, _) => step_from(frame.run_local_access(instr, length)),
        Instr::If(_, _) => step_from(frame.run_branch(instr, length)),
        Instr::IfInt(_, _) => step_from(frame.run_branch(instr, length)),
        Instr::IfReference(_, _) => step_from(frame.run_branch(instr, length)),
        Instr::IfNull(_, _) => step_from(frame.run_branch(instr, length)),
        Instr::Goto(_) => step_from(frame.run_branch(instr, length)),
        Instr::Nop => step_from(frame.run_stack_only(instr, length)),
        Instr::Push1(_) => step_from(frame.run_stack_only(instr, length)),
        Instr::Push2(_, _) => step_from(frame.run_stack_only(instr, length)),
        Instr::Stack(_) => step_from(frame.run_stack_only(instr, length)),
        Instr::IntBinary(_) => step_from(frame.run_stack_only(instr, length)),
        Instr::LongBinary(_) => step_from(frame.run_stack_only(instr, length)),
        Instr::IntNegate => step_from(frame.run_stack_only(instr, length)),
        Instr::LongNegate => step_from(frame.run_stack_only(instr, length)),
        Instr::IntShift(_) => step_from(frame.run_stack_only(instr, length)),
        Instr::LongShift(_) => step_from(frame.run_stack_only(instr, length)),
        Instr::Widen => step_from(frame.run_stack_only(instr, length)),
        Instr::Truncate => step_from(frame.run_stack_only(instr, length)),
        Instr::Narrow(_) => step_from(frame.run_stack_only(instr, length)),
        Instr::LongOrder => step_from(frame.run_stack_only(instr, length)),
        Instr::Monitor => step_from(frame.run_stack_only(instr, length)),
        _ => Err(VmError::Unexpected),
    }
}

/// Whether `after` is `before` without the topmost cell of the operand
/// stack of its running frame, and with no exception on its way.
pub open spec fn top_popped(before: Thread, after: Thread) -> bool {
    let frame0 = before.jvm_stack@.last();
    let frame1 = after.jvm_stack@.last();
    &&& after.jvm_stack@.len() == before.jvm_stack@.len()
    &&& after.jvm_stack@.drop_last() == before.jvm_stack@.drop_last()
    &&& !after.is_throwing
    &&& frame1.same_method(&frame0)
    &&& frame1@ == (FrameState {
        locals: frame0@.locals,
        stack: frame0@.stack.drop_last(),
        pc: frame0@.pc,
    })
}

/// What taking up the exception on top of the operand stack of the running
/// frame does: the reference is popped, and the exception is handled as
/// `handle_exception` handles it.
pub open spec fn caught_post(
    before: GlobalMemory,
    after: GlobalMemory,
    thread0: Thread,
    thread1: Thread,
    r: Result<Step, VmError>,
) -> bool {
    exists|popped: Thread|
        top_popped(thread0, popped) && #[trigger] handle_post(
            before,
            after,
            popped,
            thread1,
            thread0.jvm_stack@.last().operand_stack@.last(),
            r,
        )
}

/// What `athrow` does: it pops the reference to the exception and handles
/// it as `handle_exception` does. It fails with `StackUnderflow` on an
/// empty stack, and raises `NullPointerException` for a null reference;
/// the thread is then unchanged.
pub open spec fn throw_post(
    before: GlobalMemory,
    after: GlobalMemory,
    thread0: Thread,
    thread1: Thread,
    r: Result<Step, VmError>,
) -> bool {
    let stack = thread0.jvm_stack@.last().operand_stack@;
    if stack.len() < 1 {
        r == Err::<Step, VmError>(VmError::StackUnderflow) && thread1 == thread0 && after == before
    } else if stack.last() == 0 {
        r == Ok::<Step, VmError>(Step::Raise(Throwable::NullPointer)) && thread1 == thread0 && after
            == before
    } else {
        caught_post(before, after, thread0, thread1, r)
    }
}

/// What a floating-point instruction does: it changes nothing, and asks
/// the host for the operation on its operands.
pub open spec fn float_asked(op: FloatOp, s: FrameState, max_stack: int, r: Result<Step, VmError>) -> bool {
    match float_request(op, s, max_stack) {
        Ok((a, b)) => r == Ok::<Step, VmError>(Step::Float(op, a, b)),
        Err(e) => r == Err::<Step, VmError>(e),
    }
}

/// What an instruction of `length` bytes does to a thread and to the
/// memory, by its kind.
pub open spec fn execute_post(
    instr: Instr,
    length: int,
    before: GlobalMemory,
    after: GlobalMemory,
    thread0: Thread,
    thread1: Thread,
    r: Result<Step, VmError>,
) -> bool {
    let frame0 = thread0.jvm_stack@.last();
    match instr {
        Instr::Invoke(kind, index) => invoke_post(before, after, thread0, thread1, kind, index, r),
        Instr::Return(cells) => after == before && return_post(thread0, thread1, cells, r),
        Instr::Throw => throw_post(before, after, thread0, thread1, r),
        Instr::Float(op) => after == before && thread1 == thread0 && float_asked(
            op,
            frame0@,
            frame0.max_stack as int,
            r,
        ),
        _ => top_changed(thread0, thread1) && frame_post(
            instr,
            length,
            before,
            after,
            frame0,
            thread1.jvm_stack@.last(),
            r,
        ),
    }
}

impl Thread {
    /// Pops the reference on top of the operand stack of the running frame
    /// and handles the exception that it leads to.
    pub fn take_up(&mut self, gm: &mut GlobalMemory) -> (r: Result<Step, VmError>)
        requires
            old(self).wf(),
            old(gm).wf(),
            old(self).jvm_stack@.len() >= 1,
            old(self).jvm_stack@.last().operand_stack@.len() >= 1,
        ensures
            final(self).wf(),
            final(gm).wf(),
            caught_post(*old(gm), *final(gm), *old(self), *final(self), r),
    {
        let top: usize = self.jvm_stack.len() - 1;
        let ghost frames = self.jvm_stack@;
        let frame = &mut self.jvm_stack[top];
        let depth = frame.operand_stack.len();
        let objectref = frame.operand_stack[depth - 1];
        frame.operand_stack.truncate(depth - 1);
        self.is_throwing = false;
        proof {
            assert(self.jvm_stack@.drop_last() =~= frames.drop_last());
            assert(self.jvm_stack@[top as int]@.stack =~= frames[top as int]@.stack.drop_last());
            assert forall|k: int| 0 <= k < self.jvm_stack@.len() implies (#[trigger] self.jvm_stack@[k]).wf() by {
                if k < top {
                    assert(self.jvm_stack@[k] == frames[k]);
                }
            }
        }
        let ghost popped = *self;
        assert(objectref == old(self).jvm_stack@.last().operand_stack@.last());
        let r = self.handle_exception(gm, objectref);
        assert(top_popped(*old(self), popped) && handle_post(
            *old(gm),
            *gm,
            popped,
            *self,
            objectref,
            r,
        ));
        r
    }

    /// Runs the instruction `instr`, of `length` bytes, at which the
    /// running frame stands.
    pub fn execute(&mut self, gm: &mut GlobalMemory, instr: Instr, length: usize) -> (r: Result<
        Step,
        VmError,
    >)
        requires
            old(self).wf(),
            old(gm).wf(),
            old(self).jvm_stack@.len() >= 1,
            !old(self).is_throwing,
            old(self).jvm_stack@.last().instruction_counter < old(self).jvm_stack@.last().code().len(),
            old(self).jvm_stack@.last().instruction_counter + length <= usize::MAX,
        ensures
            final(self).wf(),
            final(gm).wf(),
            execute_post(instr, length as int, *old(gm), *final(gm), *old(self), *final(self), r),
            r is Ok && r->Ok_0 is Raise ==> final(self).jvm_stack@.len() >= 1
                && !final(self).is_throwing,
            r is Ok ==> r->Ok_0.wf(),
    {
        let top: usize = self.jvm_stack.len() - 1;
        match instr {
            Instr::Invoke(kind, index) => self.invoke(gm, kind, index),
            Instr::Return(cells) => self.run_return(cells),
            Instr::Throw => {
                let frame = &self.jvm_stack[top];
                let depth = frame.operand_stack.len();
                if depth < 1 {
                    return Err(VmError::StackUnderflow);
                }
                if frame.operand_stack[depth - 1] == 0 {
                    return Ok(Step::Raise(Throwable::NullPointer));
                }
                self.take_up(gm)
            },
            Instr::Float(op) => match self.jvm_stack[top].request_float(op) {
                Ok((a, b)) => Ok(Step::Float(op, a, b)),
                Err(e) => Err(e),
            },
            _ => {
                let ghost frames = self.jvm_stack@;
                let frame = &mut self.jvm_stack[top];
                let r = run_in_frame(frame, gm, instr, length);
                proof {
                    assert(self.jvm_stack@.drop_last() =~= frames.drop_last());
                    assert forall|k: int| 0 <= k < self.jvm_stack@.len() implies (
                    #[trigger] self.jvm_stack@[k]).wf() by {
                        if k < top {
                            assert(self.jvm_stack@[k] == frames[k]);
                        }
                    }
                }
                r
            },
        }
    }
}

/// What running the running frame does, before an exception that it raises
/// is looked at: a native frame runs its native method; any other decodes
/// the instruction at its instruction counter, which may fail, and runs
/// it.
pub open spec fn ran(
    before: GlobalMemory,
    after: GlobalMemory,
    thread0: Thread,
    thread1: Thread,
    r: Result<Step, VmError>,
) -> bool {
    let frame0 = thread0.jvm_stack@.last();
    if frame0.running_native {
        native_post(before, after, thread0, thread1, r)
    } else {
        match spec_decode(frame0.code(), frame0.instruction_counter as int) {
            Err(e) => r == Err::<Step, VmError>(e) && after == before && thread1 == thread0,
            Ok((instr, length)) => execute_post(instr, length, before, after, thread0, thread1, r),
        }
    }
}

/// What becomes of what the running frame did: an exception that it
/// raises is raised as `raise` does; anything else stands.
pub open spec fn settled(
    before: GlobalMemory,
    after: GlobalMemory,
    thread0: Thread,
    thread1: Thread,
    r0: Result<Step, VmError>,
    r: Result<Step, VmError>,
) -> bool {
    match r0 {
        Ok(Step::Raise(kind)) => raise_post(before, after, thread0, thread1, kind, r),
        _ => r == r0 && after == before && thread1 == thread0,
    }
}

/// What one step of a thread does.
///
/// A thread without frames is done. A thread with an exception on its way
/// takes it up in its running frame. Any other runs its running frame, and
/// raises the exception that the frame raises.
pub open spec fn thread_step_post(
    before: GlobalMemory,
    after: GlobalMemory,
    thread0: Thread,
    thread1: Thread,
    r: Result<Step, VmError>,
) -> bool {
    if thread0.jvm_stack@.len() == 0 {
        r == Ok::<Step, VmError>(Step::Done) && after == before && thread1 == thread0
    } else if thread0.is_throwing {
        caught_post(before, after, thread0, thread1, r)
    } else {
        exists|mid: GlobalMemory, between: Thread, r0: Result<Step, VmError>|
            #[trigger] ran(before, mid, thread0, between, r0) && settled(
                mid,
                after,
                between,
                thread1,
                r0,
                r,
            )
    }
}

impl Thread {
    /// Takes one step: runs one instruction or one native method of the
    /// running frame, or takes up the exception that is on its way.
    ///
    /// The step never returns `Raise`: what is raised is handled before it
    /// ends.
    pub fn step(&mut self, gm: &mut GlobalMemory) -> (r: Result<Step, VmError>)
        requires
            old(self).wf(),
            old(gm).wf(),
        ensures
            final(self).wf(),
            final(gm).wf(),
            thread_step_post(*old(gm), *final(gm), *old(self), *final(self), r),
            r is Ok ==> r->Ok_0.wf(),
    {
        let n = self.jvm_stack.len();
        if n == 0 {
            return Ok(Step::Done);
        }
        if self.is_throwing {
            return self.take_up(gm);
        }
        let r0 = if self.jvm_stack[n - 1].running_native {
            run_native_methods(self, gm)
        } else {
            let frame = &self.jvm_stack[n - 1];
            let decoded = match &frame.code_bytes {
                Some(code) => {
                    let size = code.len();
                    decode(code.as_slice(), frame.instruction_counter)
                },
                None => Err(VmError::BadCode),
            };
            match decoded {
                Ok((instr, length)) => self.execute(gm, instr, length),
                Err(e) => Err(e),
            }
        };
        let ghost mid = *gm;
        let ghost between = *self;
        let ghost first = r0;
        assert(ran(*old(gm), mid, *old(self), between, first));
        match r0 {
            Ok(Step::Raise(kind)) => {
                let r = self.raise(gm, kind);
                assert(settled(mid, *gm, between, *self, first, r));
                r
            },
            other => {
                assert(settled(mid, *gm, between, *self, first, other));
                other
            },
        }
    }
}

} // verus!
