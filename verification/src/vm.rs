//! The machine: the memory, the threads, and what is still to be done.
//!
//! The machine does nothing but compute. What it cannot compute it asks of
//! its host by the signal that a step returns: the bytes of a class, the
//! time, an operation on floating-point numbers. The host answers by the
//! matching `supply_` function and steps on.

use vstd::prelude::*;
use vstd::string::*;

use crate::descriptor::{FieldType, MethodDescriptor, MethodDescriptorView, ReturnDescriptor};
use crate::error::VmError;
use crate::frame::{frame_plan, is_fresh_frame, Frame};
use crate::instr::{decode, spec_decode, FloatOp, Instr};
use crate::interp::Step;
use crate::heap::heap_grew;
use crate::klass::{index_of, ArrayKlass, Klass};
use crate::machine::thread_step_post;
use crate::memory::{ensure_class_post, load_class_post, Ensured, GlobalMemory};
use crate::native::{complete_time, time_post};
use crate::thread::{float_done, float_request, top_changed, Thread};

verus! {

/// Something that the machine is to do once no thread is running.
#[derive(Debug)]
pub enum Task {
    /// See to it that the class with this name is initialized.
    Class(String),
    /// See to it that the array class with this descriptor is registered.
    Array(String),
    /// Run the method `method` with descriptor `descriptor`, looked for
    /// from the class `class`, in a thread of its own, with every local
    /// variable zero.
    Call { class: String, method: String, descriptor: MethodDescriptor },
}

/// What a step of the machine asks of its host.
#[derive(Debug)]
pub enum Signal {
    /// Nothing: step on.
    Continue,
    /// Nothing is left to do.
    Finished,
    /// The bytes of the class with this name, by `supply_class`.
    NeedClass(String),
    /// The time, by `supply_time`.
    NeedTime,
    /// The result of this floating-point operation on these operands, by
    /// `supply_float`.
    NeedFloat(FloatOp, u64, u64),
}

/// The machine.
///
/// The last of `threads` is the one that runs; those before it wait for a
/// class initializer that it runs. The last of `agenda` is the task that is
/// taken up when no thread is left.
#[derive(Debug)]
pub struct VM {
    pub global_memory: GlobalMemory,
    pub threads: Vec<Thread>,
    pub agenda: Vec<Task>,
}

/// Whether `thread` is a new thread whose only frame is `frame`.
pub open spec fn is_thread_of(thread: Thread, frame: Frame) -> bool {
    thread.jvm_stack@ == seq![frame] && !thread.is_throwing
}

/// What a step of the machine makes of what a step of its running thread
/// returned: `threads0` are the threads before, with `thread1` for what
/// the step left of the running one, and `threads1` the threads after.
pub open spec fn routed(
    threads0: Seq<Thread>,
    thread1: Thread,
    threads1: Seq<Thread>,
    step: Result<Step, VmError>,
    r: Result<Signal, VmError>,
) -> bool {
    let stepped = threads0.drop_last().push(thread1);
    match step {
        Ok(Step::Next) | Ok(Step::Again) => r == Ok::<Signal, VmError>(Signal::Continue) && threads1
            == stepped,
        Ok(Step::Done) => r == Ok::<Signal, VmError>(Signal::Continue) && threads1
            == threads0.drop_last(),
        Ok(Step::Load(name)) => r == Ok::<Signal, VmError>(Signal::NeedClass(name)) && threads1
            == stepped,
        Ok(Step::Run(frame)) => {
            &&& r == Ok::<Signal, VmError>(Signal::Continue)
            &&& threads1.len() == stepped.len() + 1
            &&& threads1.drop_last() == stepped
            &&& is_thread_of(threads1.last(), frame)
        },
        Ok(Step::Float(op, a, b)) => r == Ok::<Signal, VmError>(Signal::NeedFloat(op, a, b))
            && threads1 == stepped,
        Ok(Step::Time) => r == Ok::<Signal, VmError>(Signal::NeedTime) && threads1 == stepped,
        Ok(Step::Raise(_)) => r == Err::<Signal, VmError>(VmError::Unexpected) && threads1
            == stepped,
        Err(e) => r == Err::<Signal, VmError>(e) && threads1 == stepped,
    }
}

/// What taking up the task `task` does, when no thread is running.
pub open spec fn task_post(task: Task, vm0: VM, vm1: VM, r: Result<Signal, VmError>) -> bool {
    let stays = vm1.agenda == vm0.agenda;
    let done = vm1.agenda@ == vm0.agenda@.drop_last();
    let before = vm0.global_memory;
    let after = vm1.global_memory;
    match task {
        Task::Class(name) => exists|er: Result<Ensured, VmError>| #[trigger]
            ensure_class_post(before, after, name@, er) && match er {
                Ok(Ensured::Ready) => r == Ok::<Signal, VmError>(Signal::Continue) && done
                    && vm1.threads@.len() == 0,
                Ok(Ensured::Again) => r == Ok::<Signal, VmError>(Signal::Continue) && stays
                    && vm1.threads@.len() == 0,
                Ok(Ensured::Load(wanted)) => r == Ok::<Signal, VmError>(Signal::NeedClass(wanted))
                    && stays && vm1.threads@.len() == 0,
                Ok(Ensured::Run(frame)) => r == Ok::<Signal, VmError>(Signal::Continue) && stays
                    && vm1.threads@.len() == 1 && is_thread_of(vm1.threads@[0], frame),
                Err(e) => r == Err::<Signal, VmError>(e) && stays && vm1.threads@.len() == 0,
            },
        Task::Array(name) => {
            &&& vm1.threads@.len() == 0
            &&& after.loading == before.loading
            &&& if index_of(before.method_area.classes@, name@) is Some {
                r == Ok::<Signal, VmError>(Signal::Continue) && done && after == before
            } else {
                match before.mirror_failure() {
                    Some(e) => r == Err::<Signal, VmError>(e) && stays && after == before,
                    None => {
                        &&& r == Ok::<Signal, VmError>(Signal::Continue)
                        &&& done
                        &&& heap_grew(before.heap, after.heap, before.blank_mirror())
                        &&& after.method_area.classes@ == before.method_area.classes@.push(
                            Klass::Array(
                                ArrayKlass {
                                    name,
                                    java_clone: Some(before.heap.data@.len() as u32),
                                },
                            ),
                        )
                    },
                }
            }
        },
        Task::Call { class, method, descriptor } => {
            &&& after == before
            &&& match frame_plan(before.method_area.classes@, class@, method@, descriptor@) {
                Err(e) => r == Err::<Signal, VmError>(e) && stays && vm1.threads@.len() == 0,
                Ok((c, m)) => {
                    &&& r == Ok::<Signal, VmError>(Signal::Continue)
                    &&& done
                    &&& vm1.threads@.len() == 1
                    &&& vm1.threads@[0].jvm_stack@.len() == 1
                    &&& !vm1.threads@[0].is_throwing
                    &&& is_fresh_frame(
                        before.method_area.classes@,
                        c,
                        m,
                        vm1.threads@[0].jvm_stack@[0],
                    )
                },
            }
        },
    }
}

/// What one step of the machine does.
///
/// While a thread is there, the last thread takes a step, and what it
/// returns is routed: a thread that is done is dropped, a class initializer
/// gets a thread of its own, and what the thread needs is asked of the
/// host. With no thread, the last task of the agenda is taken up. With
/// neither, the machine has finished.
pub open spec fn vm_step_post(vm0: VM, vm1: VM, r: Result<Signal, VmError>) -> bool {
    if vm0.threads@.len() > 0 {
        &&& vm1.agenda == vm0.agenda
        &&& exists|thread1: Thread, step: Result<Step, VmError>| #[trigger]
            thread_step_post(
                vm0.global_memory,
                vm1.global_memory,
                vm0.threads@.last(),
                thread1,
                step,
            ) && routed(vm0.threads@, thread1, vm1.threads@, step, r)
    } else if vm0.agenda@.len() > 0 {
        task_post(vm0.agenda@.last(), vm0, vm1, r)
    } else {
        r == Ok::<Signal, VmError>(Signal::Finished) && vm1 == vm0
    }
}

/// A thread whose only frame is `frame`.
fn thread_of(frame: Frame) -> (r: Thread)
    requires
        frame.wf(),
    ensures
        r.wf(),
        is_thread_of(r, frame),
{
    let mut thread = Thread::new();
    thread.jvm_stack.push(frame);
    assert(thread.jvm_stack@ =~= seq![frame]);
    thread
}

impl VM {
    /// The memory and every thread are well-formed.
    pub open spec fn wf(&self) -> bool {
        &&& self.global_memory.wf()
        &&& forall|i: int| 0 <= i < self.threads@.len() ==> (#[trigger] self.threads@[i]).wf()
    }

    /// A machine with nothing in it and nothing to do.
    pub fn new() -> (r: VM)
        ensures
            r.wf(),
            r.threads@.len() == 0,
            r.agenda@.len() == 0,
            r.global_memory.heap.data@.len() == 1,
            r.global_memory.method_area.classes@.len() == 0,
    {
        VM { global_memory: GlobalMemory::new(), threads: Vec::new(), agenda: Vec::new() }
    }

    /// Puts a task on the agenda, to be taken up before those that are on
    /// it.
    pub fn schedule(&mut self, task: Task)
        requires
            old(self).wf(),
        ensures
            final(self).wf(),
            final(self).agenda@ == old(self).agenda@.push(task),
            final(self).threads == old(self).threads,
            final(self).global_memory == old(self).global_memory,
    {
        self.agenda.push(task);
    }

    /// Takes up the last task of the agenda.
    fn take_task(&mut self) -> (r: Result<Signal, VmError>)
        requires
            old(self).wf(),
            old(self).threads@.len() == 0,
            old(self).agenda@.len() > 0,
        ensures
            final(self).wf(),
            task_post(old(self).agenda@.last(), *old(self), *final(self), r),
    {
        let last: usize = self.agenda.len() - 1;
        let ghost before = self.global_memory;
        match &self.agenda[last] {
            Task::Class(name) => {
                let er = self.global_memory.ensure_class(name.as_str());
                let ghost witness = er;
                let r = match er {
                    Ok(Ensured::Ready) => {
                        self.agenda.pop();
                        Ok(Signal::Continue)
                    },
                    Ok(Ensured::Again) => Ok(Signal::Continue),
                    Ok(Ensured::Load(wanted)) => Ok(Signal::NeedClass(wanted)),
                    Ok(Ensured::Run(frame)) => {
                        self.threads.push(thread_of(frame));
                        Ok(Signal::Continue)
                    },
                    Err(e) => Err(e),
                };
                assert(ensure_class_post(before, self.global_memory, name@, witness));
                r
            },
            Task::Array(name) => {
                let r = self.global_memory.ensure_array(name.clone());
                match r {
                    Ok(()) => {
                        self.agenda.pop();
                        Ok(Signal::Continue)
                    },
                    Err(e) => Err(e),
                }
            },
            Task::Call { class, method, descriptor } => {
                let frame = match Frame::new(
                    &self.global_memory.method_area,
                    class,
                    method,
                    descriptor,
                ) {
                    Ok(f) => f,
                    Err(e) => {
                        return Err(e);
                    },
                };
                self.threads.push(thread_of(frame));
                self.agenda.pop();
                Ok(Signal::Continue)
            },
        }
    }

    /// Takes one step.
    pub fn step(&mut self) -> (r: Result<Signal, VmError>)
        requires
            old(self).wf(),
        ensures
            final(self).wf(),
            vm_step_post(*old(self), *final(self), r),
    {
        let n = self.threads.len();
        if n == 0 {
            if self.agenda.len() == 0 {
                return Ok(Signal::Finished);
            }
            return self.take_task();
        }
        let ghost threads0 = self.threads@;
        let ghost before = self.global_memory;
        let step = self.threads[n - 1].step(&mut self.global_memory);
        let ghost witness = step;
        let ghost thread1 = self.threads@[n - 1];
        proof {
            assert(self.threads@ =~= threads0.drop_last().push(thread1));
            assert forall|i: int| 0 <= i < self.threads@.len() implies (#[trigger] self.threads@[i]).wf() by {
                if i < n - 1 {
                    assert(self.threads@[i] == threads0[i]);
                }
            }
        }
        let r = match step {
            Ok(Step::Next) => Ok(Signal::Continue),
            Ok(Step::Again) => Ok(Signal::Continue),
            Ok(Step::Done) => {
                self.threads.pop();
                assert(self.threads@ =~= threads0.drop_last());
                Ok(Signal::Continue)
            },
            Ok(Step::Load(name)) => Ok(Signal::NeedClass(name)),
            Ok(Step::Run(frame)) => {
                self.threads.push(thread_of(frame));
                assert(self.threads@.drop_last() =~= threads0.drop_last().push(thread1));
                Ok(Signal::Continue)
            },
            Ok(Step::Float(op, a, b)) => Ok(Signal::NeedFloat(op, a, b)),
            Ok(Step::Time) => Ok(Signal::NeedTime),
            Ok(Step::Raise(_)) => Err(VmError::Unexpected),
            Err(e) => Err(e),
        };
        assert(thread_step_post(before, self.global_memory, threads0.last(), thread1, witness));
        r
    }
}

/// The floating-point instruction at which a frame stands, with its
/// length; `None` where it stands at none.
pub open spec fn float_at(frame: Frame) -> Option<(FloatOp, int)> {
    match spec_decode(frame.code(), frame.instruction_counter as int) {
        Ok((Instr::Float(op), length)) => Some((op, length)),
        _ => None,
    }
}

/// The floating-point instruction for which the machine waits: that at
/// which the running frame of the running thread stands, unless an
/// exception is on its way.
pub open spec fn awaited_float(vm: VM) -> Option<(FloatOp, int)> {
    if vm.threads@.len() > 0 && vm.threads@.last().jvm_stack@.len() > 0
        && !vm.threads@.last().is_throwing {
        float_at(vm.threads@.last().jvm_stack@.last())
    } else {
        None
    }
}

/// What `supply_float` promises.
///
/// Where the machine waits for no floating-point instruction, the call
/// fails with `Unexpected`. Else the instruction is completed: its operands
/// give way to the result, and the instruction counter moves on.
pub open spec fn supply_float_post(vm0: VM, vm1: VM, result: u64, r: Result<Signal, VmError>) -> bool {
    match awaited_float(vm0) {
        None => r == Err::<Signal, VmError>(VmError::Unexpected) && vm1 == vm0,
        Some((op, length)) => {
            let thread0 = vm0.threads@.last();
            let frame0 = thread0.jvm_stack@.last();
            match float_request(op, frame0@, frame0.max_stack as int) {
                Err(e) => r == Err::<Signal, VmError>(e) && vm1 == vm0,
                Ok(_) => {
                    &&& r == Ok::<Signal, VmError>(Signal::Continue)
                    &&& vm1.global_memory == vm0.global_memory
                    &&& vm1.agenda == vm0.agenda
                    &&& vm1.threads@.len() == vm0.threads@.len()
                    &&& vm1.threads@.drop_last() == vm0.threads@.drop_last()
                    &&& top_changed(thread0, vm1.threads@.last())
                    &&& vm1.threads@.last().jvm_stack@.last()@ == float_done(
                        op,
                        result,
                        frame0@,
                        length,
                    )
                    &&& vm1.threads@.last().jvm_stack@.last().same_method(&frame0)
                },
            }
        },
    }
}

/// What `supply_time` promises.
pub open spec fn supply_time_post(vm0: VM, vm1: VM, nanos: u64, r: Result<Signal, VmError>) -> bool {
    if vm0.threads@.len() == 0 {
        r == Err::<Signal, VmError>(VmError::Unexpected) && vm1 == vm0
    } else {
        &&& vm1.global_memory == vm0.global_memory
        &&& vm1.agenda == vm0.agenda
        &&& exists|thread1: Thread, step: Result<Step, VmError>| #[trigger]
            time_post(vm0.threads@.last(), thread1, nanos, step) && routed(
                vm0.threads@,
                thread1,
                vm1.threads@,
                step,
                r,
            )
    }
}

/// Whether `vm1` is what `n` steps, each of which returned `Continue`,
/// leave of `vm0`.
pub open spec fn stepped(vm0: VM, vm1: VM, n: nat) -> bool
    decreases n,
{
    if n == 0 {
        vm1 == vm0
    } else {
        exists|mid: VM|
            stepped(vm0, mid, (n - 1) as nat) && #[trigger] vm_step_post(
                mid,
                vm1,
                Ok(Signal::Continue),
            )
    }
}

/// What `run` promises: the machine has taken steps until one returned
/// something other than `Continue`, which `run` returns, or until it had
/// taken `budget` steps.
pub open spec fn run_post(vm0: VM, vm1: VM, budget: u64, r: Result<Signal, VmError>) -> bool {
    exists|n: nat, mid: VM|
        {
            &&& n <= budget
            &&& #[trigger] stepped(vm0, mid, n)
            &&& if r == Ok::<Signal, VmError>(Signal::Continue) {
                n == budget && vm1 == mid
            } else {
                n < budget && vm_step_post(mid, vm1, r)
            }
        }
}

impl VM {
    /// Hands the machine the bytes of the class that it has asked for, or
    /// the news that there is no such class.
    ///
    /// Fails with `ClassNotFound` where there are no bytes, and as
    /// `load_class` does.
    pub fn supply_class(&mut self, bytes: Option<&[u8]>) -> (r: Result<(), VmError>)
        requires
            old(self).wf(),
        ensures
            final(self).wf(),
            final(self).threads == old(self).threads,
            final(self).agenda == old(self).agenda,
            match bytes {
                Some(b) => load_class_post(old(self).global_memory, final(self).global_memory, b@, r),
                None => r == Err::<(), VmError>(VmError::ClassNotFound) && final(self).global_memory
                    == old(self).global_memory,
            },
    {
        match bytes {
            Some(b) => self.global_memory.load_class(b),
            None => Err(VmError::ClassNotFound),
        }
    }

    /// Tells the machine the time, in nanoseconds since the epoch, for
    /// which `System.nanoTime` waits.
    pub fn supply_time(&mut self, nanos: u64) -> (r: Result<Signal, VmError>)
        requires
            old(self).wf(),
        ensures
            final(self).wf(),
            supply_time_post(*old(self), *final(self), nanos, r),
    {
        let n = self.threads.len();
        if n == 0 {
            return Err(VmError::Unexpected);
        }
        let ghost threads0 = self.threads@;
        let step = complete_time(&mut self.threads[n - 1], nanos);
        let ghost witness = step;
        let ghost thread1 = self.threads@[n - 1];
        proof {
            assert(self.threads@ =~= threads0.drop_last().push(thread1));
            assert forall|i: int| 0 <= i < self.threads@.len() implies (#[trigger] self.threads@[i]).wf() by {
                if i < n - 1 {
                    assert(self.threads@[i] == threads0[i]);
                }
            }
        }
        let r = match step {
            Ok(Step::Done) => {
                self.threads.pop();
                assert(self.threads@ =~= threads0.drop_last());
                Ok(Signal::Continue)
            },
            Ok(Step::Next) => Ok(Signal::Continue),
            Ok(_) => Err(VmError::Unexpected),
            Err(e) => Err(e),
        };
        assert(time_post(threads0.last(), thread1, nanos, witness));
        r
    }

    /// Hands the machine the result of the floating-point operation that
    /// it has asked for: the bits of the result, in the low word where the
    /// result takes one cell.
    pub fn supply_float(&mut self, result: u64) -> (r: Result<Signal, VmError>)
        requires
            old(self).wf(),
        ensures
            final(self).wf(),
            supply_float_post(*old(self), *final(self), result, r),
    {
        let n = self.threads.len();
        if n == 0 {
            return Err(VmError::Unexpected);
        }
        let m = self.threads[n - 1].jvm_stack.len();
        if m == 0 || self.threads[n - 1].is_throwing {
            return Err(VmError::Unexpected);
        }
        let frame = &self.threads[n - 1].jvm_stack[m - 1];
        let decoded = match &frame.code_bytes {
            Some(code) => {
                let size = code.len();
                decode(code.as_slice(), frame.instruction_counter)
            },
            None => Err(VmError::BadCode),
        };
        let (op, length) = match decoded {
            Ok((Instr::Float(op), length)) => (op, length),
            _ => {
                return Err(VmError::Unexpected);
            },
        };
        match frame.request_float(op) {
            Ok(_) => {},
            Err(e) => {
                return Err(e);
            },
        }
        let ghost threads0 = self.threads@;
        let ghost frames0 = self.threads@[n - 1].jvm_stack@;
        let thread = &mut self.threads[n - 1];
        let frame = &mut thread.jvm_stack[m - 1];
        match frame.complete_float(op, result, length) {
            Ok(()) => {
                proof {
                    assert(self.threads@[n - 1].jvm_stack@.drop_last() =~= frames0.drop_last());
                    assert(self.threads@.drop_last() =~= threads0.drop_last());
                    assert forall|k: int| 0 <= k < self.threads@[n - 1].jvm_stack@.len() implies (
                    #[trigger] self.threads@[n - 1].jvm_stack@[k]).wf() by {
                        if k < m - 1 {
                            assert(self.threads@[n - 1].jvm_stack@[k] == frames0[k]);
                        }
                    }
                    assert forall|i: int| 0 <= i < self.threads@.len() implies (#[trigger] self.threads@[i]).wf() by {
                        if i < n - 1 {
                            assert(self.threads@[i] == threads0[i]);
                        }
                    }
                }
                Ok(Signal::Continue)
            },
            Err(e) => Err(e),
        }
    }
}

/// Takes steps until one returns something other than `Continue`, or until
/// `budget` steps are taken. The host runs the machine by calling `run`,
/// answering what it returns, and calling it again.
pub fn run(vm: &mut VM, budget: u64) -> (r: Result<Signal, VmError>)
    requires
        old(vm).wf(),
    ensures
        final(vm).wf(),
        run_post(*old(vm), *final(vm), budget, r),
{
    let mut taken: u64 = 0;
    while taken < budget
        invariant
            vm.wf(),
            taken <= budget,
            stepped(*old(vm), *vm, taken as nat),
        decreases budget - taken,
    {
        let ghost mid = *vm;
        match vm.step() {
            Ok(Signal::Continue) => {
                taken = taken + 1;
                assert(stepped(*old(vm), mid, (taken - 1) as nat) && vm_step_post(
                    mid,
                    *vm,
                    Ok(Signal::Continue),
                ));
            },
            other => {
                assert(stepped(*old(vm), mid, taken as nat) && vm_step_post(mid, *vm, other));
                return other;
            },
        }
    }
    Ok(Signal::Continue)
}

/// The mathematical content of a [`Task`].
pub enum TaskView {
    Class(Seq<char>),
    Array(Seq<char>),
    Call(Seq<char>, Seq<char>, MethodDescriptorView),
}

impl View for Task {
    type V = TaskView;

    open spec fn view(&self) -> TaskView {
        match *self {
            Task::Class(name) => TaskView::Class(name@),
            Task::Array(name) => TaskView::Array(name@),
            Task::Call { class, method, descriptor } => TaskView::Call(
                class@,
                method@,
                descriptor@,
            ),
        }
    }
}

/// The views of the tasks of an agenda, the one that is taken up first
/// first.
pub open spec fn agenda_order(agenda: Seq<Task>) -> Seq<TaskView> {
    Seq::new(agenda.len(), |i: int| agenda[agenda.len() - 1 - i]@)
}

/// What is to be done to run the program whose main class is named
/// `main`, in this order: the class `java/lang/Class`, whose instances are
/// the mirrors; the classes of the arrays of the eight primitive types and
/// of `Object`; the classes `Object`, `String` and `System`; the method
/// `System.initPhase1()`; the main class; and its method
/// `main(String[])`.
pub open spec fn boot_order(main: Seq<char>) -> Seq<TaskView> {
    seq![
        TaskView::Class("java/lang/Class"@),
        TaskView::Array("[Z"@),
        TaskView::Array("[B"@),
        TaskView::Array("[S"@),
        TaskView::Array("[C"@),
        TaskView::Array("[I"@),
        TaskView::Array("[J"@),
        TaskView::Array("[F"@),
        TaskView::Array("[D"@),
        TaskView::Array("[Ljava/lang/Object;"@),
        TaskView::Class("java/lang/Object"@),
        TaskView::Class("java/lang/String"@),
        TaskView::Class("java/lang/System"@),
        TaskView::Call(
            "java/lang/System"@,
            "initPhase1"@,
            MethodDescriptorView { parameters: Seq::empty(), result: None },
        ),
        TaskView::Class(main),
        TaskView::Call(
            main,
            "main"@,
            MethodDescriptorView {
                parameters: seq![seq!['[', 'L'] + "java/lang/String"@ + seq![';']],
                result: None,
            },
        ),
    ]
}

impl VM {
    /// A machine that is to run the program whose main class is named
    /// `name`.
    pub fn boot(name: String) -> (r: VM)
        ensures
            r.wf(),
            r.threads@.len() == 0,
            r.global_memory.heap.data@.len() == 1,
            r.global_memory.method_area.classes@.len() == 0,
            agenda_order(r.agenda@) == boot_order(name@),
    {
        let mut vm = VM::new();
        let main_descriptor = {
            let mut parameters: Vec<FieldType> = Vec::new();
            parameters.push(
                FieldType::Array(Box::new(FieldType::ClassInstance("java/lang/String".to_owned()))),
            );
            MethodDescriptor {
                parameter_descriptors: parameters,
                return_descriptor: ReturnDescriptor::VoidDescriptor,
            }
        };
        reveal_with_fuel(FieldType::text, 2);
        assert(main_descriptor.parameter_descriptors@[0].text() =~= seq!['[', 'L']
            + "java/lang/String"@ + seq![';']);
        assert(main_descriptor@.parameters =~= seq![seq!['[', 'L'] + "java/lang/String"@ + seq![';']]);
        vm.agenda.push(
            Task::Call { class: name.clone(), method: "main".to_owned(), descriptor: main_descriptor },
        );
        vm.agenda.push(Task::Class(name));
        vm.agenda.push(
            Task::Call {
                class: "java/lang/System".to_owned(),
                method: "initPhase1".to_owned(),
                descriptor: crate::memory::void_descriptor(),
            },
        );
        vm.agenda.push(Task::Class("java/lang/System".to_owned()));
        vm.agenda.push(Task::Class("java/lang/String".to_owned()));
        vm.agenda.push(Task::Class("java/lang/Object".to_owned()));
        vm.agenda.push(Task::Array("[Ljava/lang/Object;".to_owned()));
        vm.agenda.push(Task::Array("[D".to_owned()));
        vm.agenda.push(Task::Array("[F".to_owned()));
        vm.agenda.push(Task::Array("[J".to_owned()));
        vm.agenda.push(Task::Array("[I".to_owned()));
        vm.agenda.push(Task::Array("[C".to_owned()));
        vm.agenda.push(Task::Array("[S".to_owned()));
        vm.agenda.push(Task::Array("[B".to_owned()));
        vm.agenda.push(Task::Array("[Z".to_owned()));
        vm.agenda.push(Task::Class("java/lang/Class".to_owned()));
        assert(agenda_order(vm.agenda@) =~= boot_order(name@));
        vm
    }
}

} // verus!
