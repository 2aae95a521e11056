//! Threads: the stack of frames, and the instructions that push and pop
//! frames.

use vstd::prelude::*;
use vstd::string::*;

use crate::descriptor::{
    argument_cells, lemma_text_head, parse_method_descriptor, spec_method_descriptor, texts,
    FieldType, MethodDescriptor, MethodDescriptorView,
};
use crate::error::VmError;
use crate::deserialize::views;
use crate::fields::{cells_of, class_of_object, field_key, key_of, value_cells};
use crate::frame::{
    first_code, frame_plan, native_locals, operand_count, operands_of, Frame, FrameState,
    Throwable,
};
use crate::heap::{descriptor_cells, ObjectView};
use crate::cell::{join_long, join_words, low_word, split_long};
use crate::frame::long_cells;
use crate::instr::{decode, spec_decode, FloatOp, Instr, InvokeKind};
use crate::interp::{
    await_class, constant_of, lemma_same_but_pool, lemma_same_but_pool_trans, same_but_pool,
    same_state, step_of, waited, Step,
};
use crate::klass::{
    index_of, inherits, instance_index, lemma_index_of, lemma_index_of_same_names,
    lemma_inherits_same, method_index, object_class_name, resolve_method, same_identity, Klass,
    MethodArea,
};
use crate::heap::heap_grew;
use crate::memory::{blank_instance, ensure_class_post, Ensured, GlobalMemory};
use crate::parse::ExceptionTableItem;
use crate::objects::{element_cells, element_width, replaced};
use crate::parse::{resolve_entry, spec_resolve, Constant, ConstantView};

verus! {

/// A thread: its frames, the running one last, and whether an exception is
/// on its way up. While one is, the reference to it is the topmost cell of
/// the operand stack of the running frame, where it is not counted against
/// the depth that the method allows.
#[derive(Debug)]
pub struct Thread {
    pub jvm_stack: Vec<Frame>,
    pub is_throwing: bool,
}

impl Thread {
    /// Every frame is well-formed, and an exception that is on its way is
    /// on top of the operand stack of the running frame, which may then be
    /// one cell deeper than its method allows.
    pub open spec fn wf(&self) -> bool {
        &&& forall|i: int|
            0 <= i < self.jvm_stack@.len() ==> (#[trigger] self.jvm_stack@[i]).wf() || (
            self.is_throwing && i == self.jvm_stack@.len() - 1 && self.jvm_stack@[i].carrying())
        &&& self.is_throwing ==> self.jvm_stack@.len() >= 1
            && self.jvm_stack@.last().operand_stack@.len() >= 1
    }

    /// A thread without frames.
    pub fn new() -> (r: Thread)
        ensures
            r.wf(),
            r.jvm_stack@.len() == 0,
            !r.is_throwing,
    {
        Thread { jvm_stack: Vec::new(), is_throwing: false }
    }
}

/// The parts of a method reference: the class that it names, the name of
/// the method and its descriptor.
pub struct MethodKey {
    pub class: Seq<char>,
    pub name: Seq<char>,
    pub descriptor: Seq<char>,
}

/// The parts of a resolved method reference; `None` for a constant of
/// another kind.
pub open spec fn method_key(c: Option<ConstantView>) -> Option<MethodKey> {
    match c {
        Some(ConstantView::MethodRef(class, member)) => match *member {
            ConstantView::NameAndType(name, descriptor) => Some(
                MethodKey { class, name, descriptor },
            ),
            _ => None,
        },
        _ => None,
    }
}

/// The number of cells that values of the types with these descriptors
/// take, one after another.
pub open spec fn cells_of_texts(list: Seq<Seq<char>>) -> nat
    decreases list.len(),
{
    if list.len() == 0 {
        0
    } else {
        cells_of_texts(list.drop_last()) + descriptor_cells(list.last()) as nat
    }
}

/// The cells of the arguments are those of their descriptor texts.
pub proof fn lemma_argument_cells(parameters: Seq<FieldType>)
    ensures
        argument_cells(parameters) == cells_of_texts(texts(parameters)),
    decreases parameters.len(),
{
    if parameters.len() > 0 {
        lemma_argument_cells(parameters.drop_last());
        assert(texts(parameters).drop_last() =~= texts(parameters.drop_last()));
        lemma_text_head(parameters.last());
    }
}

/// The number of cells that an invocation of this kind pops: those of the
/// arguments, and one more for the receiver unless the method is static.
pub open spec fn popped_cells(kind: InvokeKind, descriptor: MethodDescriptorView) -> nat {
    cells_of_texts(descriptor.parameters) + if kind == InvokeKind::Static {
        0nat
    } else {
        1nat
    }
}

/// The name of the class in which the lookup of the method starts: the
/// class that the reference names for `invokestatic` and `invokespecial`,
/// the class of the receiver for `invokevirtual` and `invokeinterface`. An
/// array has the methods of the class `Object`.
pub open spec fn lookup_start(
    kind: InvokeKind,
    key: MethodKey,
    objects: Seq<ObjectView>,
    receiver: u32,
) -> Seq<char> {
    if kind == InvokeKind::Static || kind == InvokeKind::Special {
        key.class
    } else {
        match class_of_object(objects[receiver as int].descriptor) {
            Some(name) => name,
            None => object_class_name(),
        }
    }
}

/// Whether `frame` is the frame with which the invocation of method `m` of
/// the class at position `c` begins, with the cells `arguments` as its
/// first local variables: a fresh frame but for those.
pub open spec fn is_entered_frame(
    classes: Seq<Klass>,
    c: int,
    m: int,
    frame: Frame,
    arguments: Seq<u32>,
) -> bool {
    let klass = classes[c]->Instance_0;
    let method = klass.parsed_class.methods@[m];
    &&& frame.wf()
    &&& frame.constant_pool == c
    &&& frame.class_name@ == klass.name@
    &&& frame.method_name@ == method.name@
    &&& frame.instruction_counter == 0
    &&& frame.operand_stack@.len() == 0
    &&& frame.local_variables@.len() >= arguments.len()
    &&& frame.local_variables@.subrange(0, arguments.len() as int) == arguments
    &&& forall|i: int|
        arguments.len() <= i < frame.local_variables@.len() ==> frame.local_variables@[i] == 0
    &&& if method.access.native {
        &&& frame.code_bytes is None
        &&& frame.max_stack == 0
        &&& frame.local_variables@.len() == native_locals(method)
    } else {
        let code = first_code(method.attributes@)->0;
        &&& frame.code_bytes is Some
        &&& frame.code_bytes->0@ == code.bytes
        &&& frame.exception_table->0@ == code.exception_table
        &&& frame.max_stack == code.max_stack
        &&& frame.local_variables@.len() == code.max_locals
    }
}

/// What an invocation does.
///
/// It resolves the method reference with index `index` and parses its
/// descriptor; it waits for the class that the reference names to be
/// initialized; it pops the arguments and, unless the method is static, the
/// receiver; it finds the method by method resolution from the class that
/// `lookup_start` names; and it pushes a frame for it whose first local
/// variables are the receiver and the arguments. The instruction counter
/// of the invoker stays at the invocation until the method returns.
///
/// A null receiver raises `NullPointerException`. Fails with `Resolution`
/// where the constant is no method reference, with `Descriptor` where the
/// descriptor is malformed, with `StackUnderflow` where the stack holds
/// fewer cells than are popped, with `BadReference` where the receiver
/// leads to no object, as `frame_plan` says, and with `BadLocal` where the
/// method has fewer local variables than the cells that are popped.
pub open spec fn invoke_post(
    before: GlobalMemory,
    after: GlobalMemory,
    thread0: Thread,
    thread1: Thread,
    kind: InvokeKind,
    index: u16,
    r: Result<Step, VmError>,
) -> bool {
    let frame0 = thread0.jvm_stack@.last();
    let class = frame0.constant_pool as int;
    let classes = before.method_area.classes@;
    let objects = before.heap.objects();
    let depth = frame0.operand_stack@.len() as int;
    let unchanged = thread1 == thread0 && same_but_pool(before, after, class);
    match method_key(before.method_area.spec_constant(class, index as int)) {
        None => r == Err::<Step, VmError>(VmError::Resolution) && unchanged,
        Some(key) => match spec_method_descriptor(key.descriptor) {
            None => r == Err::<Step, VmError>(VmError::Descriptor) && unchanged,
            Some(descriptor) => {
                let popped = popped_cells(kind, descriptor) as int;
                let receiver = frame0.operand_stack@[depth - popped];
                if depth < popped {
                    r == Err::<Step, VmError>(VmError::StackUnderflow) && unchanged
                } else if !before.method_area.is_initialized(key.class) {
                    thread1 == thread0 && waited(before, after, class, key.class, r)
                } else if kind != InvokeKind::Static && receiver == 0 {
                    r == Ok::<Step, VmError>(Step::Raise(Throwable::NullPointer)) && unchanged
                } else if kind != InvokeKind::Static && receiver >= objects.len() {
                    r == Err::<Step, VmError>(VmError::BadReference) && unchanged
                } else {
                    same_but_pool(before, after, class) && entered_post(
                        classes,
                        thread0,
                        thread1,
                        lookup_start(kind, key, objects, receiver),
                        key.name,
                        descriptor,
                        popped,
                        r,
                    )
                }
            },
        },
    }
}

/// What entering a method does to a thread: the running frame loses the
/// `popped` topmost cells of its operand stack, and a frame for the method
/// is pushed whose first local variables are those cells.
///
/// The method is looked for from the class named `start`. Fails as
/// `frame_plan` says, and with `BadLocal` where the method has fewer local
/// variables than `popped`; the thread is then unchanged.
pub open spec fn entered_post(
    classes: Seq<Klass>,
    thread0: Thread,
    thread1: Thread,
    start: Seq<char>,
    name: Seq<char>,
    descriptor: MethodDescriptorView,
    popped: int,
    r: Result<Step, VmError>,
) -> bool {
    let frame0 = thread0.jvm_stack@.last();
    let depth = frame0.operand_stack@.len() as int;
    let top = thread0.jvm_stack@.len() - 1;
    match frame_plan(classes, start, name, descriptor) {
        Err(e) => r == Err::<Step, VmError>(e) && thread1 == thread0,
        Ok((c, m)) => if invoked_locals(classes, c, m) < popped {
            r == Err::<Step, VmError>(VmError::BadLocal) && thread1 == thread0
        } else {
            &&& r == Ok::<Step, VmError>(Step::Next)
            &&& thread1.is_throwing == thread0.is_throwing
            &&& thread1.jvm_stack@.len() == thread0.jvm_stack@.len() + 1
            &&& thread1.jvm_stack@.subrange(0, top) == thread0.jvm_stack@.subrange(0, top)
            &&& thread1.jvm_stack@[top]@ == replaced(frame0@, popped, Seq::empty(), 0)
            &&& thread1.jvm_stack@[top].same_method(&frame0)
            &&& is_entered_frame(
                classes,
                c,
                m,
                thread1.jvm_stack@.last(),
                frame0.operand_stack@.subrange(depth - popped, depth),
            )
        },
    }
}

/// The number of local variables of the frame of method `m` of the class
/// at position `c`.
pub open spec fn invoked_locals(classes: Seq<Klass>, c: int, m: int) -> nat {
    let method = classes[c]->Instance_0.parsed_class.methods@[m];
    if method.access.native {
        native_locals(method)
    } else {
        first_code(method.attributes@)->0.max_locals as nat
    }
}

/// The parts of a resolved method reference.
fn key_of_method(constant: Constant) -> (r: Option<(String, String, String)>)
    ensures
        match (method_key(Some(constant@)), r) {
            (Some(key), Some((class, name, descriptor))) => class@ == key.class && name@ == key.name
                && descriptor@ == key.descriptor,
            (None, None) => true,
            _ => false,
        },
{
    reveal_with_fuel(Constant::content, 2);
    match constant {
        Constant::MethodRef(info, member) => match *member {
            Constant::NameAndType(name, descriptor) => Some((info.name, name, descriptor)),
            _ => None,
        },
        _ => None,
    }
}

/// The text `java/lang/Object`.
pub fn object_class_text() -> (r: String)
    ensures
        r@ == object_class_name(),
{
    proof {
        reveal_strlit("java/lang/Object");
    }
    let text = "java/lang/Object".to_owned();
    assert(text@ =~= object_class_name());
    text
}

/// What the resolved constants of a class do not change in the lookup of a
/// method.
pub proof fn lemma_plan_same(
    a: Seq<Klass>,
    b: Seq<Klass>,
    start: Seq<char>,
    name: Seq<char>,
    descriptor: MethodDescriptorView,
)
    requires
        a.len() == b.len(),
        forall|j: int|
            0 <= j < a.len() ==> same_identity(#[trigger] a[j], b[j]) && same_state(a[j], b[j]),
    ensures
        frame_plan(a, start, name, descriptor) == frame_plan(b, start, name, descriptor),
{
    assert forall|j: int| 0 <= j < a.len() implies (#[trigger] a[j]).spec_name() == b[j].spec_name() by {
        assert(same_identity(a[j], b[j]));
    }
    lemma_index_of_same_names(a, b, start);
    lemma_index_of(a, start);
    match index_of(a, start) {
        Some(i) => {
            lemma_resolve_same(a, b, i, name, descriptor);
            match resolve_method(a, i, name, descriptor) {
                Some((c, m)) => {
                    lemma_resolve_bounds(a, i, name, descriptor);
                    assert(same_identity(a[c], b[c]) && same_state(a[c], b[c]));
                },
                None => {},
            }
        },
        None => {},
    }
}

/// Method resolution ends in a class of the registry.
pub proof fn lemma_resolve_bounds(
    a: Seq<Klass>,
    i: int,
    name: Seq<char>,
    descriptor: MethodDescriptorView,
)
    ensures
        match resolve_method(a, i, name, descriptor) {
            Some((c, m)) => 0 <= c < a.len() && c <= i && a[c] is Instance,
            None => true,
        },
    decreases i,
{
    if 0 <= i < a.len() {
        match a[i] {
            Klass::Instance(k) => match method_index(k.parsed_class.methods@, name, descriptor) {
                Some(m) => {},
                None => match k.super_index {
                    Some(j) => {
                        if j < i {
                            lemma_resolve_bounds(a, j as int, name, descriptor);
                        }
                    },
                    None => {},
                },
            },
            Klass::Array(_) => {},
        }
    }
}

proof fn lemma_resolve_same(
    a: Seq<Klass>,
    b: Seq<Klass>,
    i: int,
    name: Seq<char>,
    descriptor: MethodDescriptorView,
)
    requires
        a.len() == b.len(),
        forall|j: int|
            0 <= j < a.len() ==> same_identity(#[trigger] a[j], b[j]) && same_state(a[j], b[j]),
    ensures
        resolve_method(a, i, name, descriptor) == resolve_method(b, i, name, descriptor),
    decreases i,
{
    if 0 <= i < a.len() {
        assert(same_identity(a[i], b[i]));
        match a[i] {
            Klass::Instance(k) => match k.super_index {
                Some(j) => {
                    if j < i {
                        lemma_resolve_same(a, b, j as int, name, descriptor);
                    }
                },
                None => {},
            },
            Klass::Array(_) => {},
        }
    }
}

/// What the resolved constants of a class do not change in entering a
/// method.
pub proof fn lemma_entered_same(
    a: Seq<Klass>,
    b: Seq<Klass>,
    thread0: Thread,
    thread1: Thread,
    start: Seq<char>,
    name: Seq<char>,
    descriptor: MethodDescriptorView,
    popped: int,
    r: Result<Step, VmError>,
)
    requires
        a.len() == b.len(),
        forall|j: int|
            0 <= j < a.len() ==> same_identity(#[trigger] a[j], b[j]) && same_state(a[j], b[j]),
    ensures
        entered_post(a, thread0, thread1, start, name, descriptor, popped, r) == entered_post(
            b,
            thread0,
            thread1,
            start,
            name,
            descriptor,
            popped,
            r,
        ),
{
    lemma_plan_same(a, b, start, name, descriptor);
    match frame_plan(a, start, name, descriptor) {
        Ok((c, m)) => {
            lemma_index_of(a, start);
            lemma_resolve_bounds(a, index_of(a, start)->0, name, descriptor);
            assert(same_identity(a[c], b[c]));
        },
        Err(_) => {},
    }
}

impl Thread {
    /// Enters the method with that name and descriptor, looked for from the
    /// class named `start`, with the `popped` topmost cells of the running
    /// frame as its arguments.
    pub fn enter_method(
        &mut self,
        area: &MethodArea,
        start: &String,
        name: &String,
        descriptor: &MethodDescriptor,
        popped: usize,
    ) -> (r: Result<Step, VmError>)
        requires
            old(self).wf(),
            area.wf(),
            old(self).jvm_stack@.len() >= 1,
            !old(self).is_throwing,
            popped <= old(self).jvm_stack@.last().operand_stack@.len(),
        ensures
            final(self).wf(),
            entered_post(
                area.classes@,
                *old(self),
                *final(self),
                start@,
                name@,
                descriptor@,
                popped as int,
                r,
            ),
    {
        let top: usize = self.jvm_stack.len() - 1;
        let depth = self.jvm_stack[top].operand_stack.len();
        let mut callee = match Frame::new(area, start, name, descriptor) {
            Ok(f) => f,
            Err(e) => {
                return Err(e);
            },
        };
        if callee.local_variables.len() < popped {
            return Err(VmError::BadLocal);
        }
        let ghost values = self.jvm_stack@[top as int].operand_stack@.subrange(
            depth - popped,
            depth as int,
        );
        let ghost fresh = callee;
        let mut i: usize = 0;
        while i < popped
            invariant
                i <= popped <= depth,
                top < self.jvm_stack@.len(),
                *self == *old(self),
                depth == self.jvm_stack@[top as int].operand_stack@.len(),
                values == self.jvm_stack@[top as int].operand_stack@.subrange(
                    depth - popped,
                    depth as int,
                ),
                callee.local_variables@.len() >= popped,
                callee.local_variables@.subrange(0, i as int) == values.subrange(0, i as int),
                forall|k: int| i <= k < callee.local_variables@.len() ==> callee.local_variables@[k] == 0,
                callee.wf(),
                callee.operand_stack@.len() == 0,
                callee.instruction_counter == 0,
                callee.same_method(&fresh),
            decreases popped - i,
        {
            callee.local_variables[i] = self.jvm_stack[top].operand_stack[depth - popped + i];
            i = i + 1;
            assert(callee.local_variables@.subrange(0, i as int) =~= values.subrange(0, i as int));
        }
        assert(values.subrange(0, popped as int) =~= values);
        let ghost frames = self.jvm_stack@;
        let out: Vec<u32> = Vec::new();
        let caller = &mut self.jvm_stack[top];
        let pc = caller.instruction_counter;
        caller.replace_top(popped, &out, pc);
        self.jvm_stack.push(callee);
        proof {
            assert(self.jvm_stack@.subrange(0, top as int) =~= frames.subrange(0, top as int));
            assert forall|k: int| 0 <= k < self.jvm_stack@.len() implies (#[trigger] self.jvm_stack@[k]).wf() by {
                if k < top {
                    assert(self.jvm_stack@[k] == frames[k]);
                }
            }
        }
        Ok(Step::Next)
    }

    /// Runs an invocation. The thread must have a running frame.
    pub fn invoke(&mut self, gm: &mut GlobalMemory, kind: InvokeKind, index: u16) -> (r: Result<
        Step,
        VmError,
    >)
        requires
            old(self).wf(),
            old(gm).wf(),
            old(self).jvm_stack@.len() >= 1,
            !old(self).is_throwing,
        ensures
            final(self).wf(),
            final(gm).wf(),
            invoke_post(*old(gm), *final(gm), *old(self), *final(self), kind, index, r),
            r is Ok ==> r->Ok_0.wf(),
    {
        let top: usize = self.jvm_stack.len() - 1;
        let ghost class = self.jvm_stack@[top as int].constant_pool as int;
        let constant = match constant_of(gm, &self.jvm_stack[top], index) {
            Ok(c) => c,
            Err(e) => {
                return Err(e);
            },
        };
        let (owner, name, text) = match key_of_method(constant) {
            Some(parts) => parts,
            None => {
                return Err(VmError::Resolution);
            },
        };
        let descriptor = match parse_method_descriptor(text) {
            Ok(d) => d,
            Err(e) => {
                return Err(e);
            },
        };
        proof {
            lemma_argument_cells(descriptor.parameter_descriptors@);
        }
        let depth = self.jvm_stack[top].operand_stack.len();
        let arguments = match descriptor.argument_width() {
            Some(n) => n,
            None => {
                return Err(VmError::StackUnderflow);
            },
        };
        let with_receiver = match kind {
            InvokeKind::Static => false,
            _ => true,
        };
        if arguments >= depth && (with_receiver || arguments > depth) {
            return Err(VmError::StackUnderflow);
        }
        let popped: usize = if with_receiver {
            arguments + 1
        } else {
            arguments
        };
        let ghost mid = *gm;
        proof {
            lemma_same_but_pool(*old(gm), mid, class);
        }
        match await_class(gm, owner.as_str()) {
            Ok(None) => {},
            Ok(Some(step)) => {
                return Ok(step);
            },
            Err(e) => {
                return Err(e);
            },
        }
        let start: String = if with_receiver {
            let receiver = self.jvm_stack[top].operand_stack[depth - popped];
            if receiver == 0 {
                return Ok(Step::Raise(Throwable::NullPointer));
            }
            let object = match gm.heap.load(receiver) {
                Some(o) => o,
                None => {
                    return Err(VmError::BadReference);
                },
            };
            assert(gm.heap.objects()[receiver as int] == object@);
            match kind {
                InvokeKind::Special => owner,
                _ => match crate::fields::object_class(object) {
                    Some(c) => c,
                    None => object_class_text(),
                },
            }
        } else {
            owner
        };
        let r = self.enter_method(&gm.method_area, &start, &name, &descriptor, popped);
        proof {
            lemma_entered_same(
                old(gm).method_area.classes@,
                gm.method_area.classes@,
                *old(self),
                *self,
                start@,
                name@,
                descriptor@,
                popped as int,
                r,
            );
        }
        r
    }
}

/// Whether `after` is `before` but for its running frame.
pub open spec fn top_changed(before: Thread, after: Thread) -> bool {
    &&& after.jvm_stack@.len() == before.jvm_stack@.len()
    &&& after.jvm_stack@.drop_last() == before.jvm_stack@.drop_last()
    &&& after.is_throwing == before.is_throwing
}

/// The number of bytes of the invocation at which a frame waits for the
/// method that it has invoked; `None` where the frame does not stand at an
/// invocation.
pub open spec fn resume_length(caller: Frame) -> Option<int> {
    match spec_decode(caller.code(), caller.instruction_counter as int) {
        Ok((Instr::Invoke(_, _), length)) => Some(length),
        _ => None,
    }
}

/// What the end of a method does to a thread: the running frame is
/// dropped, and the cells `values` are pushed onto the operand stack of its
/// invoker, whose instruction counter moves past the invocation. The end of
/// the only frame is the end of the thread, and the values are dropped.
///
/// Fails with `BadCode` where the invoker does not stand at an invocation,
/// and with `StackOverflow` where the values do not fit on its stack; the
/// thread is then unchanged.
pub open spec fn left_post(thread0: Thread, thread1: Thread, values: Seq<u32>, r: Result<Step, VmError>) -> bool {
    let n = thread0.jvm_stack@.len() as int;
    if n == 1 {
        &&& r == Ok::<Step, VmError>(Step::Done)
        &&& thread1.jvm_stack@.len() == 0
        &&& thread1.is_throwing == thread0.is_throwing
    } else {
        let caller = thread0.jvm_stack@[n - 2];
        match resume_length(caller) {
            None => r == Err::<Step, VmError>(VmError::BadCode) && thread1 == thread0,
            Some(length) => if caller.operand_stack@.len() + values.len() > caller.max_stack {
                r == Err::<Step, VmError>(VmError::StackOverflow) && thread1 == thread0
            } else {
                &&& r == Ok::<Step, VmError>(Step::Next)
                &&& thread1.is_throwing == thread0.is_throwing
                &&& thread1.jvm_stack@.len() == n - 1
                &&& thread1.jvm_stack@.drop_last() == thread0.jvm_stack@.subrange(0, n - 2)
                &&& thread1.jvm_stack@.last()@ == replaced(caller@, 0, values, length)
                &&& thread1.jvm_stack@.last().same_method(&caller)
            },
        }
    }
}

/// What a return that hands `cells` cells to the invoker does: the cells
/// are the topmost of the operand stack of the running frame. Fails with
/// `StackUnderflow` where the stack holds fewer.
pub open spec fn return_post(thread0: Thread, thread1: Thread, cells: u8, r: Result<Step, VmError>) -> bool {
    let frame0 = thread0.jvm_stack@.last();
    let depth = frame0.operand_stack@.len() as int;
    if depth < cells {
        r == Err::<Step, VmError>(VmError::StackUnderflow) && thread1 == thread0
    } else {
        left_post(thread0, thread1, frame0.operand_stack@.subrange(depth - cells, depth), r)
    }
}

impl Thread {
    /// Ends the running method and hands `values` to its invoker.
    pub fn finish_call(&mut self, values: &Vec<u32>) -> (r: Result<Step, VmError>)
        requires
            old(self).wf(),
            old(self).jvm_stack@.len() >= 1,
            !old(self).is_throwing,
        ensures
            final(self).wf(),
            left_post(*old(self), *final(self), values@, r),
    {
        let n = self.jvm_stack.len();
        if n == 1 {
            self.jvm_stack.pop();
            return Ok(Step::Done);
        }
        let caller = &self.jvm_stack[n - 2];
        let length = match &caller.code_bytes {
            Some(code) => {
                let size = code.len();
                match decode(code.as_slice(), caller.instruction_counter) {
                    Ok((Instr::Invoke(_, _), length)) => length,
                    _ => {
                        return Err(VmError::BadCode);
                    },
                }
            },
            None => {
                return Err(VmError::BadCode);
            },
        };
        if values.len() > caller.max_stack - caller.operand_stack.len() {
            return Err(VmError::StackOverflow);
        }
        let ghost frames = self.jvm_stack@;
        self.jvm_stack.pop();
        let caller = &mut self.jvm_stack[n - 2];
        let next: usize = caller.instruction_counter + length;
        caller.replace_top(0, values, next);
        proof {
            assert(self.jvm_stack@.drop_last() =~= frames.subrange(0, n - 2));
            assert(frames.subrange(0, n as int - 0).len() == n);
            assert(caller@.stack =~= frames[n - 2]@.stack + values@);
            assert forall|k: int| 0 <= k < self.jvm_stack@.len() implies (#[trigger] self.jvm_stack@[k]).wf() by {
                if k < n - 2 {
                    assert(self.jvm_stack@[k] == frames[k]);
                }
            }
        }
        Ok(Step::Next)
    }

    /// Runs a return that hands `cells` cells to the invoker.
    pub fn run_return(&mut self, cells: u8) -> (r: Result<Step, VmError>)
        requires
            old(self).wf(),
            old(self).jvm_stack@.len() >= 1,
            !old(self).is_throwing,
        ensures
            final(self).wf(),
            return_post(*old(self), *final(self), cells, r),
    {
        let top: usize = self.jvm_stack.len() - 1;
        let frame = &self.jvm_stack[top];
        let depth = frame.operand_stack.len();
        let cells = cells as usize;
        if depth < cells {
            return Err(VmError::StackUnderflow);
        }
        let mut values: Vec<u32> = Vec::new();
        let mut i: usize = depth - cells;
        while i < depth
            invariant
                cells <= depth,
                depth - cells <= i <= depth,
                depth == frame.operand_stack@.len(),
                values@ == frame.operand_stack@.subrange(depth - cells, i as int),
            decreases depth - i,
        {
            values.push(frame.operand_stack[i]);
            i = i + 1;
            assert(values@ =~= frame.operand_stack@.subrange(depth - cells, i as int));
        }
        self.finish_call(&values)
    }
}

/// Whether the range of an exception-table entry covers `pc`.
pub open spec fn covers(item: ExceptionTableItem, pc: int) -> bool {
    item.start_pc <= pc < item.end_pc
}

/// Whether the handler of an exception-table entry catches an exception of
/// the class at position `thrown`, raised at `pc`: its range covers `pc`,
/// and its catch type is 0, for any, or names the class of the exception or
/// one that it inherits from.
///
/// Fails with `Resolution` where the range covers `pc` and the catch type
/// is not the index of a class constant.
pub open spec fn catches(
    area: MethodArea,
    class: int,
    item: ExceptionTableItem,
    pc: int,
    thrown: int,
) -> Result<bool, VmError> {
    if !covers(item, pc) {
        Ok(false)
    } else if item.catch_type == 0 {
        Ok(true)
    } else if item.catch_type > u16::MAX {
        Err(VmError::Resolution)
    } else {
        match area.spec_constant(class, item.catch_type as int) {
            Some(ConstantView::Class(name)) => Ok(inherits(area.classes@, thrown, name)),
            _ => Err(VmError::Resolution),
        }
    }
}

/// The address of the handler that catches: that of the first entry of the
/// table that does. `None` where no entry catches.
pub open spec fn handler_for(
    area: MethodArea,
    class: int,
    table: Seq<ExceptionTableItem>,
    pc: int,
    thrown: int,
) -> Result<Option<int>, VmError>
    decreases table.len(),
{
    if table.len() == 0 {
        Ok(None)
    } else {
        match handler_for(area, class, table.drop_last(), pc, thrown) {
            Err(e) => Err(e),
            Ok(Some(handler)) => Ok(Some(handler)),
            Ok(None) => match catches(area, class, table.last(), pc, thrown) {
                Err(e) => Err(e),
                Ok(true) => Ok(Some(table.last().handler_pc as int)),
                Ok(false) => Ok(None),
            },
        }
    }
}

/// An exception raised at an address that no entry of the table covers
/// finds no handler.
pub proof fn lemma_uncovered_is_uncaught(
    area: MethodArea,
    class: int,
    table: Seq<ExceptionTableItem>,
    pc: int,
    thrown: int,
)
    requires
        forall|i: int| 0 <= i < table.len() ==> !covers(#[trigger] table[i], pc),
    ensures
        handler_for(area, class, table, pc, thrown) == Ok::<Option<int>, VmError>(None),
    decreases table.len(),
{
    if table.len() > 0 {
        assert forall|i: int| 0 <= i < table.drop_last().len() implies !covers(
            #[trigger] table.drop_last()[i],
            pc,
        ) by {
            assert(table.drop_last()[i] == table[i]);
        }
        lemma_uncovered_is_uncaught(area, class, table.drop_last(), pc, thrown);
        assert(!covers(table[table.len() - 1], pc));
    }
}

/// A handler found among the first `n` entries is the handler found among
/// all, and so is a failure.
proof fn lemma_handler_prefix(
    area: MethodArea,
    class: int,
    table: Seq<ExceptionTableItem>,
    pc: int,
    thrown: int,
    n: int,
)
    requires
        0 <= n <= table.len(),
    ensures
        handler_for(area, class, table.subrange(0, n), pc, thrown) != Ok::<Option<int>, VmError>(
            None,
        ) ==> handler_for(area, class, table, pc, thrown) == handler_for(
            area,
            class,
            table.subrange(0, n),
            pc,
            thrown,
        ),
    decreases table.len() - n,
{
    if n == table.len() {
        assert(table.subrange(0, n) =~= table);
    } else {
        lemma_handler_prefix(area, class, table, pc, thrown, n + 1);
        assert(table.subrange(0, n + 1).drop_last() =~= table.subrange(0, n));
    }
}

/// The table of the handlers of a frame; empty for a native frame.
pub open spec fn table_of(frame: Frame) -> Seq<ExceptionTableItem> {
    match frame.exception_table {
        Some(table) => table@,
        None => Seq::empty(),
    }
}

/// The position of the class of the exception object that `objectref`
/// leads to. Fails with `BadReference` where it leads to no instance of a
/// class, and with `ClassNotFound` where the class is not loaded.
pub open spec fn thrown_class(gm: GlobalMemory, objectref: u32) -> Result<int, VmError> {
    let objects = gm.heap.objects();
    if objectref >= objects.len() {
        Err(VmError::BadReference)
    } else {
        match class_of_object(objects[objectref as int].descriptor) {
            None => Err(VmError::BadReference),
            Some(name) => match instance_index(gm.method_area.classes@, name) {
                None => Err(VmError::ClassNotFound),
                Some(i) => Ok(i),
            },
        }
    }
}

/// What `handle_exception` does with the exception that `objectref` leads
/// to, which was raised in the running frame.
///
/// Where an entry of the exception table of the frame catches it, the
/// reference is pushed onto the operand stack of the frame as it stands,
/// the local variables stay, the instruction counter moves to the handler,
/// and no exception is on its way any more; the call fails with
/// `StackOverflow` where the stack of the frame has no room for the
/// reference. Where no entry catches it, the frame is dropped, the
/// reference is pushed onto the operand stack of its invoker, whatever the
/// depth of that stack, and the exception is on its way; from the only
/// frame of the thread there is nowhere to go, and the call fails with
/// `UnhandledException`.
///
/// Fails also as `thrown_class` and `handler_for` say. On failure the
/// thread is unchanged.
pub open spec fn handle_post(
    before: GlobalMemory,
    after: GlobalMemory,
    thread0: Thread,
    thread1: Thread,
    objectref: u32,
    r: Result<Step, VmError>,
) -> bool {
    let n = thread0.jvm_stack@.len() as int;
    let frame0 = thread0.jvm_stack@.last();
    let class = frame0.constant_pool as int;
    &&& same_but_pool(before, after, class)
    &&& match thrown_class(before, objectref) {
        Err(e) => r == Err::<Step, VmError>(e) && thread1 == thread0,
        Ok(thrown) => match handler_for(
            before.method_area,
            class,
            table_of(frame0),
            frame0.instruction_counter as int,
            thrown,
        ) {
            Err(e) => r == Err::<Step, VmError>(e) && thread1 == thread0,
            Ok(Some(handler)) => if frame0.operand_stack@.len() >= frame0.max_stack {
                r == Err::<Step, VmError>(VmError::StackOverflow) && thread1 == thread0
            } else {
                &&& r == Ok::<Step, VmError>(Step::Next)
                &&& !thread1.is_throwing
                &&& thread1.jvm_stack@.len() == n
                &&& thread1.jvm_stack@.drop_last() == thread0.jvm_stack@.drop_last()
                &&& thread1.jvm_stack@.last()@ == replaced(
                    frame0@,
                    0,
                    seq![objectref],
                    handler - frame0@.pc,
                )
                &&& thread1.jvm_stack@.last().same_method(&frame0)
            },
            Ok(None) => if n == 1 {
                r == Err::<Step, VmError>(VmError::UnhandledException(objectref)) && thread1
                    == thread0
            } else {
                let caller = thread0.jvm_stack@[n - 2];
                &&& r == Ok::<Step, VmError>(Step::Next)
                &&& thread1.is_throwing
                &&& thread1.jvm_stack@.len() == n - 1
                &&& thread1.jvm_stack@.drop_last() == thread0.jvm_stack@.subrange(0, n - 2)
                &&& thread1.jvm_stack@.last()@ == replaced(caller@, 0, seq![objectref], 0)
                &&& thread1.jvm_stack@.last().same_method(&caller)
            },
        },
    }
}

/// A memory differs from itself in nothing.
pub proof fn lemma_same_but_pool_refl(a: GlobalMemory, class: int)
    ensures
        same_but_pool(a, a, class),
{
}

/// The position of the class of an exception object.
fn class_of_thrown(gm: &GlobalMemory, objectref: u32) -> (r: Result<usize, VmError>)
    requires
        gm.wf(),
    ensures
        match thrown_class(*gm, objectref) {
            Ok(i) => r is Ok && r->Ok_0 as int == i && 0 <= i < gm.method_area.classes@.len(),
            Err(e) => r == Err::<usize, VmError>(e),
        },
{
    let object = match gm.heap.load(objectref) {
        Some(o) => o,
        None => {
            return Err(VmError::BadReference);
        },
    };
    assert(gm.heap.objects()[objectref as int] == object@);
    let name = match crate::fields::object_class(object) {
        Some(n) => n,
        None => {
            return Err(VmError::BadReference);
        },
    };
    proof {
        lemma_index_of(gm.method_area.classes@, name@);
    }
    match gm.method_area.find(name.as_str()) {
        Some(i) => match &gm.method_area.classes[i] {
            Klass::Instance(_) => Ok(i),
            Klass::Array(_) => Err(VmError::ClassNotFound),
        },
        None => Err(VmError::ClassNotFound),
    }
}

/// What the resolved constants of a class do not change in the search for
/// a handler.
proof fn lemma_handler_same(
    a: GlobalMemory,
    b: GlobalMemory,
    class: int,
    table: Seq<ExceptionTableItem>,
    pc: int,
    thrown: int,
)
    requires
        same_but_pool(a, b, class),
    ensures
        handler_for(a.method_area, class, table, pc, thrown) == handler_for(
            b.method_area,
            class,
            table,
            pc,
            thrown,
        ),
    decreases table.len(),
{
    if table.len() > 0 {
        lemma_handler_same(a, b, class, table.drop_last(), pc, thrown);
        lemma_same_but_pool(a, b, class);
        let item = table.last();
        match a.method_area.spec_constant(class, item.catch_type as int) {
            Some(ConstantView::Class(name)) => {
                lemma_inherits_same(a.method_area.classes@, b.method_area.classes@, thrown, name);
            },
            _ => {},
        }
    }
}

/// Looks for the handler that catches an exception of the class at
/// position `thrown`, raised in `frame`.
#[verifier::loop_isolation(false)]
fn find_handler(gm: &mut GlobalMemory, frame: &Frame, thrown: usize) -> (r: Result<
    Option<usize>,
    VmError,
>)
    requires
        old(gm).wf(),
    ensures
        final(gm).wf(),
        same_but_pool(*old(gm), *final(gm), frame.constant_pool as int),
        match handler_for(
            old(gm).method_area,
            frame.constant_pool as int,
            table_of(*frame),
            frame.instruction_counter as int,
            thrown as int,
        ) {
            Ok(Some(handler)) => r is Ok && r->Ok_0 is Some && r->Ok_0->0 as int == handler,
            Ok(None) => r == Ok::<Option<usize>, VmError>(None),
            Err(e) => r == Err::<Option<usize>, VmError>(e),
        },
{
    let ghost class = frame.constant_pool as int;
    let ghost pc = frame.instruction_counter as int;
    let table = match &frame.exception_table {
        Some(t) => t,
        None => {
            return Ok(None);
        },
    };
    let mut i: usize = 0;
    while i < table.len()
        invariant
            i <= table.len(),
            gm.wf(),
            same_but_pool(*old(gm), *gm, class),
            handler_for(old(gm).method_area, class, table@.subrange(0, i as int), pc, thrown as int)
                == Ok::<Option<int>, VmError>(None),
        decreases table.len() - i,
    {
        let ghost now = *gm;
        proof {
            assert(table@.subrange(0, i + 1).drop_last() =~= table@.subrange(0, i as int));
            lemma_handler_prefix(old(gm).method_area, class, table@, pc, thrown as int, i + 1);
            lemma_same_but_pool(*old(gm), now, class);
        }
        let item = table[i];
        if item.start_pc <= frame.instruction_counter && frame.instruction_counter < item.end_pc {
            if item.catch_type == 0 {
                return Ok(Some(item.handler_pc));
            }
            if item.catch_type > u16::MAX as usize {
                return Err(VmError::Resolution);
            }
            let constant = match constant_of(gm, frame, item.catch_type as u16) {
                Ok(c) => c,
                Err(e) => {
                    proof {
                        lemma_same_but_pool_trans(*old(gm), now, *gm, class);
                    }
                    return Err(e);
                },
            };
            proof {
                lemma_same_but_pool_trans(*old(gm), now, *gm, class);
                lemma_same_but_pool(*old(gm), *gm, class);
            }
            match constant {
                Constant::Class(info) => {
                    proof {
                        lemma_inherits_same(
                            old(gm).method_area.classes@,
                            gm.method_area.classes@,
                            thrown as int,
                            info.name@,
                        );
                    }
                    if gm.method_area.inherits_from(thrown, &info.name) {
                        return Ok(Some(item.handler_pc));
                    }
                },
                _ => {
                    return Err(VmError::Resolution);
                },
            }
        }
        i = i + 1;
    }
    assert(table@.subrange(0, i as int) =~= table@);
    Ok(None)
}

impl Thread {
    /// Finds the handler for the exception that `objectref` leads to, or
    /// sends it up to the invoker. The thread must have a running frame,
    /// and no exception on its way.
    pub fn handle_exception(&mut self, global_memory: &mut GlobalMemory, objectref: u32) -> (r:
        Result<Step, VmError>)
        requires
            old(self).wf(),
            old(global_memory).wf(),
            old(self).jvm_stack@.len() >= 1,
            !old(self).is_throwing,
        ensures
            final(self).wf(),
            final(global_memory).wf(),
            handle_post(
                *old(global_memory),
                *final(global_memory),
                *old(self),
                *final(self),
                objectref,
                r,
            ),
    {
        let n = self.jvm_stack.len();
        proof {
            lemma_same_but_pool_refl(*global_memory, self.jvm_stack@[n - 1].constant_pool as int);
        }
        let thrown = match class_of_thrown(global_memory, objectref) {
            Ok(i) => i,
            Err(e) => {
                return Err(e);
            },
        };
        let found = match find_handler(global_memory, &self.jvm_stack[n - 1], thrown) {
            Ok(f) => f,
            Err(e) => {
                return Err(e);
            },
        };
        let ghost frames = self.jvm_stack@;
        match found {
            Some(handler) => {
                if self.jvm_stack[n - 1].operand_stack.len() >= self.jvm_stack[n - 1].max_stack {
                    return Err(VmError::StackOverflow);
                }
                let frame = &mut self.jvm_stack[n - 1];
                let mut out: Vec<u32> = Vec::new();
                out.push(objectref);
                frame.replace_top(0, &out, handler);
                proof {
                    assert(out@ =~= seq![objectref]);
                    assert(self.jvm_stack@.drop_last() =~= frames.drop_last());
                    assert forall|k: int| 0 <= k < self.jvm_stack@.len() implies (
                    #[trigger] self.jvm_stack@[k]).wf() by {
                        if k < n - 1 {
                            assert(self.jvm_stack@[k] == frames[k]);
                        }
                    }
                }
                Ok(Step::Next)
            },
            None => {
                if n == 1 {
                    return Err(VmError::UnhandledException(objectref));
                }
                self.jvm_stack.pop();
                let caller = &mut self.jvm_stack[n - 2];
                caller.carry(objectref);
                self.is_throwing = true;
                proof {
                    let invoker = frames[n - 2];
                    assert(invoker@.stack.subrange(0, invoker@.stack.len() - 0) + seq![objectref]
                        =~= invoker@.stack.push(objectref));
                    assert(self.jvm_stack@.drop_last() =~= frames.subrange(0, n - 2));
                    assert forall|k: int| 0 <= k < self.jvm_stack@.len() - 1 implies (
                    #[trigger] self.jvm_stack@[k]).wf() by {
                        assert(self.jvm_stack@[k] == frames[k]);
                    }
                }
                Ok(Step::Next)
            },
        }
    }
}

/// Whether `after` is what one step of `ensure_class` for the class named
/// `name` leaves of `before`, and `r` tells of that step.
pub open spec fn awaited(
    before: GlobalMemory,
    after: GlobalMemory,
    name: Seq<char>,
    r: Result<Step, VmError>,
) -> bool {
    exists|er: Result<Ensured, VmError>| #[trigger]
        ensure_class_post(before, after, name, er) && r == step_of(er)
}

/// The class of the exception object that the machine makes for an
/// exception that it raises itself.
pub open spec fn throwable_class(kind: Throwable) -> Seq<char> {
    match kind {
        Throwable::Arithmetic => "java/lang/ArithmeticException"@,
        Throwable::NullPointer => "java/lang/NullPointerException"@,
        Throwable::ArrayIndex => "java/lang/ArrayIndexOutOfBoundsException"@,
        Throwable::ClassCast => "java/lang/ClassCastException"@,
        Throwable::NegativeArraySize => "java/lang/NegativeArraySizeException"@,
    }
}

/// The name of the class of an exception that the machine raises.
pub fn throwable_name(kind: Throwable) -> (r: &'static str)
    ensures
        r@ == throwable_class(kind),
{
    match kind {
        Throwable::Arithmetic => "java/lang/ArithmeticException",
        Throwable::NullPointer => "java/lang/NullPointerException",
        Throwable::ArrayIndex => "java/lang/ArrayIndexOutOfBoundsException",
        Throwable::ClassCast => "java/lang/ClassCastException",
        Throwable::NegativeArraySize => "java/lang/NegativeArraySizeException",
    }
}

/// The constant with index `index` of the class of `frame`, as its raw
/// pool gives it; `None` where it cannot be resolved.
pub open spec fn frame_constant(classes: Seq<Klass>, frame: Frame, index: u16) -> Option<
    ConstantView,
> {
    let class = frame.constant_pool as int;
    if 0 <= class < classes.len() && classes[class] is Instance {
        spec_resolve(views(classes[class]->Instance_0.parsed_class.raw_pool@), index as int)
    } else {
        None
    }
}

/// The number of cells that the instruction at which `frame` stands takes
/// from the operand stack: its operands, which it has popped when it
/// raises an exception. An array access takes the reference and the index,
/// and a store the value as well; a field access takes the reference, and
/// `putfield` the value as well; an invocation takes the arguments and the
/// receiver; `arraylength`, `checkcast`, `athrow` and the instructions that
/// make an array take one cell. A native method takes nothing.
pub open spec fn raised_cells(classes: Seq<Klass>, frame: Frame) -> nat {
    if frame.running_native {
        0
    } else {
        match spec_decode(frame.code(), frame.instruction_counter as int) {
            Ok((instr, _)) => match instr {
                Instr::ArrayLoad(_) => 2,
                Instr::ArrayStore(kind) => (2 + element_cells(kind)) as nat,
                Instr::ArrayLength | Instr::GetField(_) | Instr::CheckCast(_) | Instr::Throw
                | Instr::NewArray(_) | Instr::ANewArray(_) | Instr::MultiNewArray(_, _) => 1,
                Instr::PutField(index) => match field_key(frame_constant(classes, frame, index)) {
                    Some(key) => match value_cells(key.descriptor) {
                        Some(width) => (1 + width) as nat,
                        None => 0,
                    },
                    None => 0,
                },
                Instr::Invoke(kind, index) => match method_key(
                    frame_constant(classes, frame, index),
                ) {
                    Some(key) => match spec_method_descriptor(key.descriptor) {
                        Some(descriptor) => popped_cells(kind, descriptor),
                        None => 0,
                    },
                    None => 0,
                },
                _ => operand_count(instr),
            },
            Err(_) => 0,
        }
    }
}

/// Whether `after` is `before` without the `pops` topmost cells of the
/// operand stack of its running frame.
pub open spec fn operands_dropped(before: Thread, after: Thread, pops: int) -> bool {
    &&& top_changed(before, after)
    &&& after.jvm_stack@.last()@ == replaced(before.jvm_stack@.last()@, pops, Seq::empty(), 0)
    &&& after.jvm_stack@.last().same_method(&before.jvm_stack@.last())
}

/// What raising an exception of kind `kind` in the running frame does.
///
/// Where the class of the exception is not initialized, one step of
/// `ensure_class` is taken for it and the thread is unchanged. Else the
/// instruction that raises has popped its operands, as many cells as
/// `raised_cells` says: they leave the operand stack. A new instance of the
/// class is made, with every field zero, and handled as `handle_exception`
/// handles it. Fails with `StackUnderflow` where the stack holds fewer
/// cells than the operands take, with `ClassNotFound` where the name is
/// that of no class, and with `OutOfMemory` where the heap is full; nothing
/// has changed then.
pub open spec fn raise_post(
    before: GlobalMemory,
    after: GlobalMemory,
    thread0: Thread,
    thread1: Thread,
    kind: Throwable,
    r: Result<Step, VmError>,
) -> bool {
    let name = throwable_class(kind);
    let classes = before.method_area.classes@;
    let frame0 = thread0.jvm_stack@.last();
    let pops = raised_cells(classes, frame0) as int;
    if !before.method_area.is_initialized(name) {
        thread1 == thread0 && awaited(before, after, name, r)
    } else if frame0.operand_stack@.len() < pops {
        r == Err::<Step, VmError>(VmError::StackUnderflow) && thread1 == thread0 && after == before
    } else {
        let i = index_of(classes, name)->0;
        match before.instance_failure(i) {
            Some(e) => r == Err::<Step, VmError>(e) && thread1 == thread0 && after == before,
            None => exists|mid: GlobalMemory, popped: Thread|
                {
                    &&& mid.method_area == before.method_area
                    &&& mid.loading == before.loading
                    &&& heap_grew(before.heap, mid.heap, blank_instance(classes, i))
                    &&& operands_dropped(thread0, popped, pops)
                    &&& #[trigger] handle_post(
                        mid,
                        after,
                        popped,
                        thread1,
                        before.heap.data@.len() as u32,
                        r,
                    )
                },
        }
    }
}

/// Resolves the constant with index `index` of the class of `frame` from
/// its raw pool.
fn constant_in(gm: &GlobalMemory, frame: &Frame, index: u16) -> (r: Option<Constant>)
    ensures
        match frame_constant(gm.method_area.classes@, *frame, index) {
            Some(c) => r is Some && r->0@ == c,
            None => r is None,
        },
{
    if frame.constant_pool >= gm.method_area.classes.len() {
        return None;
    }
    match &gm.method_area.classes[frame.constant_pool] {
        Klass::Instance(k) => match resolve_entry(&k.parsed_class.raw_pool, index) {
            Ok(c) => Some(c),
            Err(_) => None,
        },
        Klass::Array(_) => None,
    }
}

/// The number of cells that the instruction at which `frame` stands takes
/// from the operand stack; `None` where the machine cannot count them.
fn cells_at_raise(gm: &GlobalMemory, frame: &Frame) -> (r: Option<usize>)
    ensures
        match r {
            Some(n) => n == raised_cells(gm.method_area.classes@, *frame),
            None => raised_cells(gm.method_area.classes@, *frame) > usize::MAX,
        },
{
    if frame.running_native {
        return Some(0);
    }
    let decoded = match &frame.code_bytes {
        Some(code) => decode(code.as_slice(), frame.instruction_counter),
        None => Err(VmError::BadCode),
    };
    let instr = match decoded {
        Ok((instr, _)) => instr,
        Err(_) => {
            return Some(0);
        },
    };
    match instr {
        Instr::ArrayLoad(_) => Some(2),
        Instr::ArrayStore(kind) => Some(2 + element_width(kind)),
        Instr::ArrayLength => Some(1),
        Instr::GetField(_) => Some(1),
        Instr::CheckCast(_) => Some(1),
        Instr::Throw => Some(1),
        Instr::NewArray(_) => Some(1),
        Instr::ANewArray(_) => Some(1),
        Instr::MultiNewArray(_, _) => Some(1),
        Instr::PutField(index) => {
            let constant = match constant_in(gm, frame, index) {
                Some(c) => c,
                None => {
                    return Some(0);
                },
            };
            match key_of(constant) {
                Some((_, _, descriptor)) => match cells_of(&descriptor) {
                    Ok(width) => Some(1 + width),
                    Err(_) => Some(0),
                },
                None => Some(0),
            }
        },
        Instr::Invoke(kind, index) => {
            let constant = match constant_in(gm, frame, index) {
                Some(c) => c,
                None => {
                    return Some(0);
                },
            };
            let text = match key_of_method(constant) {
                Some((_, _, text)) => text,
                None => {
                    return Some(0);
                },
            };
            let descriptor = match parse_method_descriptor(text) {
                Ok(d) => d,
                Err(_) => {
                    return Some(0);
                },
            };
            proof {
                lemma_argument_cells(descriptor.parameter_descriptors@);
            }
            let arguments = match descriptor.argument_width() {
                Some(n) => n,
                None => {
                    return None;
                },
            };
            match kind {
                InvokeKind::Static => Some(arguments),
                _ => if arguments < usize::MAX {
                    Some(arguments + 1)
                } else {
                    None
                },
            }
        },
        _ => Some(operands_of(instr)),
    }
}

impl Thread {
    /// Raises an exception of kind `kind` in the running frame.
    pub fn raise(&mut self, gm: &mut GlobalMemory, kind: Throwable) -> (r: Result<Step, VmError>)
        requires
            old(self).wf(),
            old(gm).wf(),
            old(self).jvm_stack@.len() >= 1,
            !old(self).is_throwing,
        ensures
            final(self).wf(),
            final(gm).wf(),
            raise_post(*old(gm), *final(gm), *old(self), *final(self), kind, r),
            r is Ok ==> r->Ok_0.wf(),
    {
        let name = throwable_name(kind);
        match await_class(gm, name) {
            Ok(None) => {},
            Ok(Some(step)) => {
                return Ok(step);
            },
            Err(e) => {
                return Err(e);
            },
        }
        let i = match gm.method_area.find(name) {
            Some(i) => i,
            None => {
                return Err(VmError::ClassNotFound);
            },
        };
        let n = self.jvm_stack.len();
        let pops = match cells_at_raise(gm, &self.jvm_stack[n - 1]) {
            Some(pops) => pops,
            None => {
                return Err(VmError::StackUnderflow);
            },
        };
        if self.jvm_stack[n - 1].operand_stack.len() < pops {
            return Err(VmError::StackUnderflow);
        }
        let objectref = match gm.allocate_klass(i) {
            Ok(r) => r,
            Err(e) => {
                return Err(e);
            },
        };
        let ghost frames = self.jvm_stack@;
        let frame = &mut self.jvm_stack[n - 1];
        let here = frame.instruction_counter;
        let nothing: Vec<u32> = Vec::new();
        frame.replace_top(pops, &nothing, here);
        proof {
            assert(self.jvm_stack@.drop_last() =~= frames.drop_last());
            assert forall|k: int| 0 <= k < self.jvm_stack@.len() implies (
            #[trigger] self.jvm_stack@[k]).wf() by {
                if k < n - 1 {
                    assert(self.jvm_stack@[k] == frames[k]);
                }
            }
        }
        let ghost mid = *gm;
        let ghost popped = *self;
        assert(operands_dropped(*old(self), popped, pops as int));
        let r = self.handle_exception(gm, objectref);
        assert(handle_post(mid, *gm, popped, *self, objectref, r));
        r
    }
}

/// The cells that a floating-point instruction takes and gives: those of
/// its first operand, those of its second, 0 where it has none, and those
/// of its result.
pub open spec fn float_shape(op: FloatOp) -> (int, int, int) {
    match op {
        FloatOp::FAdd | FloatOp::FSub | FloatOp::FMul | FloatOp::FDiv | FloatOp::FRem => (1, 1, 1),
        FloatOp::DAdd | FloatOp::DSub | FloatOp::DMul | FloatOp::DDiv | FloatOp::DRem => (2, 2, 2),
        FloatOp::FNeg | FloatOp::I2F | FloatOp::F2I => (1, 0, 1),
        FloatOp::DNeg | FloatOp::L2D | FloatOp::D2L => (2, 0, 2),
        FloatOp::I2D | FloatOp::F2L | FloatOp::F2D => (1, 0, 2),
        FloatOp::L2F | FloatOp::D2I | FloatOp::D2F => (2, 0, 1),
        FloatOp::FCompareL | FloatOp::FCompareG => (1, 1, 1),
        FloatOp::DCompareL | FloatOp::DCompareG => (2, 2, 1),
    }
}

/// The operand of `cells` cells that starts at cell `at` of the stack, as
/// one bit pattern; 0 for an operand that is not there.
pub open spec fn operand_at(stack: Seq<u32>, at: int, cells: int) -> u64 {
    if cells == 2 {
        join_words(stack[at], stack[at + 1])
    } else if cells == 1 {
        stack[at] as u64
    } else {
        0
    }
}

/// The operands that a floating-point instruction hands to the host.
/// Fails with `StackUnderflow` where the stack holds fewer cells than the
/// operands take, and with `StackOverflow` where the result would not fit.
pub open spec fn float_request(op: FloatOp, s: FrameState, max_stack: int) -> Result<(u64, u64), VmError> {
    let (first, second, out) = float_shape(op);
    let depth = s.stack.len() as int;
    if depth < first + second {
        Err(VmError::StackUnderflow)
    } else if depth - first - second + out > max_stack {
        Err(VmError::StackOverflow)
    } else {
        Ok(
            (
                operand_at(s.stack, depth - first - second, first),
                operand_at(s.stack, depth - second, second),
            ),
        )
    }
}

/// The state of a frame after a floating-point instruction of `length`
/// bytes for which the host has found `result`: the operands have given
/// way to the result, which is the low word of `result` where it takes one
/// cell.
pub open spec fn float_done(op: FloatOp, result: u64, s: FrameState, length: int) -> FrameState {
    let (first, second, out) = float_shape(op);
    replaced(
        s,
        first + second,
        if out == 2 {
            long_cells(result)
        } else {
            seq![low_word(result)]
        },
        length,
    )
}

/// The cells that a floating-point instruction takes and gives.
pub fn shape_of(op: FloatOp) -> (r: (usize, usize, usize))
    ensures
        (r.0 as int, r.1 as int, r.2 as int) == float_shape(op),
{
    match op {
        FloatOp::FAdd => (1, 1, 1),
        FloatOp::FSub => (1, 1, 1),
        FloatOp::FMul => (1, 1, 1),
        FloatOp::FDiv => (1, 1, 1),
        FloatOp::FRem => (1, 1, 1),
        FloatOp::DAdd => (2, 2, 2),
        FloatOp::DSub => (2, 2, 2),
        FloatOp::DMul => (2, 2, 2),
        FloatOp::DDiv => (2, 2, 2),
        FloatOp::DRem => (2, 2, 2),
        FloatOp::FNeg => (1, 0, 1),
        FloatOp::I2F => (1, 0, 1),
        FloatOp::F2I => (1, 0, 1),
        FloatOp::DNeg => (2, 0, 2),
        FloatOp::L2D => (2, 0, 2),
        FloatOp::D2L => (2, 0, 2),
        FloatOp::I2D => (1, 0, 2),
        FloatOp::F2L => (1, 0, 2),
        FloatOp::F2D => (1, 0, 2),
        FloatOp::L2F => (2, 0, 1),
        FloatOp::D2I => (2, 0, 1),
        FloatOp::D2F => (2, 0, 1),
        FloatOp::FCompareL => (1, 1, 1),
        FloatOp::FCompareG => (1, 1, 1),
        FloatOp::DCompareL => (2, 2, 1),
        FloatOp::DCompareG => (2, 2, 1),
    }
}

impl Frame {
    /// The operand of `cells` cells at cell `at` of the operand stack.
    fn operand(&self, at: usize, cells: usize) -> (r: u64)
        requires
            cells <= 2,
            at + cells <= self.operand_stack@.len(),
        ensures
            r == operand_at(self.operand_stack@, at as int, cells as int),
    {
        let depth = self.operand_stack.len();
        if cells == 2 {
            join_long(self.operand_stack[at], self.operand_stack[at + 1])
        } else if cells == 1 {
            self.operand_stack[at] as u64
        } else {
            0
        }
    }

    /// The operands of a floating-point instruction, for the host.
    pub fn request_float(&self, op: FloatOp) -> (r: Result<(u64, u64), VmError>)
        requires
            self.wf(),
        ensures
            r == float_request(op, self@, self.max_stack as int),
    {
        let (first, second, out) = shape_of(op);
        let depth = self.operand_stack.len();
        if depth < first + second {
            return Err(VmError::StackUnderflow);
        }
        if out > self.max_stack || depth - first - second > self.max_stack - out {
            return Err(VmError::StackOverflow);
        }
        Ok((self.operand(depth - first - second, first), self.operand(depth - second, second)))
    }

    /// Completes a floating-point instruction of `length` bytes with the
    /// result that the host has found.
    pub fn complete_float(&mut self, op: FloatOp, result: u64, length: usize) -> (r: Result<
        (),
        VmError,
    >)
        requires
            old(self).wf(),
            old(self).instruction_counter + length <= usize::MAX,
        ensures
            final(self).wf(),
            match float_request(op, old(self)@, old(self).max_stack as int) {
                Ok(_) => r is Ok && final(self)@ == float_done(
                    op,
                    result,
                    old(self)@,
                    length as int,
                ) && final(self).same_method(old(self)),
                Err(e) => r == Err::<(), VmError>(e) && *final(self) == *old(self),
            },
    {
        let (first, second, out) = shape_of(op);
        let depth = self.operand_stack.len();
        if depth < first + second {
            return Err(VmError::StackUnderflow);
        }
        if out > self.max_stack || depth - first - second > self.max_stack - out {
            return Err(VmError::StackOverflow);
        }
        let (high, low) = split_long(result);
        let mut cells: Vec<u32> = Vec::new();
        if out == 2 {
            cells.push(high);
            cells.push(low);
            assert(cells@ =~= long_cells(result));
        } else {
            cells.push(low);
            assert(cells@ =~= seq![low_word(result)]);
        }
        let next: usize = self.instruction_counter + length;
        self.replace_top(first + second, &cells, next);
        Ok(())
    }
}

} // verus!
