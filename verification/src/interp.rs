//! The instructions that need the classes: allocation, fields, constants,
//! casts.
//!
//! Such an instruction first resolves a constant through the pool of the
//! class of its frame, which remembers it. Where it needs a class that is
//! not initialized yet, it takes one step of `ensure_class`, changes
//! nothing in its frame and asks to be run again; so it completes on the
//! step that finds its class initialized.

use vstd::prelude::*;
use vstd::string::*;

use crate::cell::{int_of, to_signed};

use crate::error::VmError;
use crate::frame::{Effect, Flow, Frame, Throwable};
use crate::heap::{blank_array, descriptor_cells, heap_grew, Heap};
use crate::instr::FloatOp;
use crate::klass::{index_of, lemma_index_of, lemma_index_of_same_names, same_identity, Klass};
use crate::memory::{blank_instance, ensure_class_post, instance_descriptor, Ensured, GlobalMemory};
use crate::objects::replaced;
use crate::parse::{Constant, ConstantView};

verus! {

/// How an instruction ended.
#[derive(Debug)]
pub enum Step {
    /// It is done, and the instruction counter stands at the next one.
    Next,
    /// It raises an exception, and has changed nothing: its operands leave
    /// the operand stack when the exception is raised.
    Raise(Throwable),
    /// It needs the class with this name loaded, and has not run.
    Load(String),
    /// It needs a class whose initializer must run first, in this frame,
    /// and has not run.
    Run(Frame),
    /// It has taken a step towards the class that it needs, and has not
    /// run: it is to be run again.
    Again,
    /// It needs a floating-point operation done on these operands, and has
    /// not run.
    Float(FloatOp, u64, u64),
    /// It needs the time, and has not run.
    Time,
    /// It was the return from the last frame of the thread.
    Done,
}

impl Step {
    /// A frame that is to run is well-formed.
    pub open spec fn wf(&self) -> bool {
        match *self {
            Step::Run(frame) => frame.wf(),
            _ => true,
        }
    }
}

/// The step that tells of a result of `ensure_class` that is not the
/// finding of an initialized class.
pub open spec fn step_of(er: Result<Ensured, VmError>) -> Result<Step, VmError> {
    match er {
        Ok(Ensured::Ready) => Ok(Step::Again),
        Ok(Ensured::Load(name)) => Ok(Step::Load(name)),
        Ok(Ensured::Run(frame)) => Ok(Step::Run(frame)),
        Ok(Ensured::Again) => Ok(Step::Again),
        Err(e) => Err(e),
    }
}

/// Whether `after` is `before` but for the constants that the class at
/// position `class` has resolved.
pub open spec fn same_but_pool(before: GlobalMemory, after: GlobalMemory, class: int) -> bool {
    &&& after.heap == before.heap
    &&& after.loading == before.loading
    &&& before.method_area.differs_in_pool(&after.method_area, class)
}

/// Whether `after` is what one step of `ensure_class` for the class named
/// `name` leaves of `before`, after the class at position `class` has
/// resolved constants, and `r` tells of that step.
pub open spec fn waited(
    before: GlobalMemory,
    after: GlobalMemory,
    class: int,
    name: Seq<char>,
    r: Result<Step, VmError>,
) -> bool {
    exists|mid: GlobalMemory, er: Result<Ensured, VmError>|
        {
            &&& same_but_pool(before, mid, class)
            &&& #[trigger] ensure_class_post(mid, after, name, er)
            &&& r == step_of(er)
        }
}

/// What holds of a frame after an instruction with effect `effect`.
pub open spec fn step_follows(
    before: Frame,
    after: Frame,
    r: Result<Step, VmError>,
    effect: Result<Effect, VmError>,
) -> bool {
    match effect {
        Ok(Effect::Next(s)) => r == Ok::<Step, VmError>(Step::Next) && after@ == s
            && after.same_method(&before),
        Ok(Effect::Raise(t)) => r == Ok::<Step, VmError>(Step::Raise(t)) && after == before,
        Err(e) => r == Err::<Step, VmError>(e) && after == before,
    }
}

/// The step that tells of how a frame-local instruction ended.
pub fn step_from(flow: Result<Flow, VmError>) -> (r: Result<Step, VmError>)
    ensures
        r == match flow {
            Ok(Flow::Next) => Ok::<Step, VmError>(Step::Next),
            Ok(Flow::Raise(t)) => Ok(Step::Raise(t)),
            Err(e) => Err(e),
        },
{
    match flow {
        Ok(Flow::Next) => Ok(Step::Next),
        Ok(Flow::Raise(t)) => Ok(Step::Raise(t)),
        Err(e) => Err(e),
    }
}

/// Differences in resolved constants add up.
pub proof fn lemma_same_but_pool_trans(a: GlobalMemory, b: GlobalMemory, c: GlobalMemory, class: int)
    requires
        same_but_pool(a, b, class),
        same_but_pool(b, c, class),
    ensures
        same_but_pool(a, c, class),
{
    assert forall|j: int| 0 <= j < a.method_area.classes@.len() && j != class implies (
    #[trigger] a.method_area.classes@[j]) == c.method_area.classes@[j] by {
        assert(a.method_area.classes@[j] == b.method_area.classes@[j]);
    }
}

/// What `await_class` promises. Where the class named `name` is
/// initialized, nothing changes and nothing is returned; else one step of
/// `ensure_class` is taken and told of.
pub open spec fn await_post(
    before: GlobalMemory,
    after: GlobalMemory,
    name: Seq<char>,
    r: Result<Option<Step>, VmError>,
) -> bool {
    if before.method_area.is_initialized(name) {
        r is Ok && r->Ok_0 is None && after == before
    } else {
        exists|er: Result<Ensured, VmError>|
            {
                &&& #[trigger] ensure_class_post(before, after, name, er)
                &&& match step_of(er) {
                    Ok(step) => r is Ok && r->Ok_0 == Some(step),
                    Err(e) => r == Err::<Option<Step>, VmError>(e),
                }
            }
    }
}

/// Finds the class named `name` initialized, or takes one step of
/// `ensure_class` for it.
pub fn await_class(gm: &mut GlobalMemory, name: &str) -> (r: Result<Option<Step>, VmError>)
    requires
        old(gm).wf(),
    ensures
        final(gm).wf(),
        await_post(*old(gm), *final(gm), name@, r),
        r is Ok && r->Ok_0 is None ==> index_of(final(gm).method_area.classes@, name@) is Some,
        r is Ok && r->Ok_0 is Some ==> r->Ok_0->0.wf(),
{
    proof {
        lemma_index_of(gm.method_area.classes@, name@);
    }
    match gm.method_area.find(name) {
        Some(i) => {
            if gm.method_area.classes[i].is_initialized() {
                return Ok(None);
            }
        },
        None => {},
    }
    let er = gm.ensure_class(name);
    let ghost witness: Result<Ensured, VmError> = er;
    let r = match er {
        Ok(Ensured::Ready) => Ok(Some(Step::Again)),
        Ok(Ensured::Load(wanted)) => Ok(Some(Step::Load(wanted))),
        Ok(Ensured::Run(frame)) => Ok(Some(Step::Run(frame))),
        Ok(Ensured::Again) => Ok(Some(Step::Again)),
        Err(e) => Err(e),
    };
    assert(ensure_class_post(*old(gm), *gm, name@, witness));
    r
}

/// Resolves the constant with index `index` through the pool of the class
/// of `frame`.
pub fn constant_of(gm: &mut GlobalMemory, frame: &Frame, index: u16) -> (r: Result<Constant, VmError>)
    requires
        old(gm).wf(),
    ensures
        final(gm).wf(),
        same_but_pool(*old(gm), *final(gm), frame.constant_pool as int),
        match old(gm).method_area.spec_constant(frame.constant_pool as int, index as int) {
            Some(c) => r is Ok && r->Ok_0@ == c,
            None => r == Err::<Constant, VmError>(VmError::Resolution),
        },
{
    gm.method_area.resolve(frame.constant_pool, index)
}

/// Whether two records are in the same state: they differ at most in the
/// constants that they have resolved.
pub open spec fn same_state(a: Klass, b: Klass) -> bool {
    match (a, b) {
        (Klass::Instance(x), Klass::Instance(y)) => {
            &&& x.static_field_values == y.static_field_values
            &&& x.java_clone == y.java_clone
            &&& x.initialized == y.initialized
            &&& (x.constant_pool is Some) == (y.constant_pool is Some)
        },
        (Klass::Array(x), Klass::Array(y)) => x.java_clone == y.java_clone,
        _ => false,
    }
}

/// What the resolved constants of a class do not change.
pub proof fn lemma_same_but_pool(a: GlobalMemory, b: GlobalMemory, class: int)
    requires
        same_but_pool(a, b, class),
    ensures
        forall|name: Seq<char>|
            index_of(a.method_area.classes@, name) == index_of(b.method_area.classes@, name),
        forall|name: Seq<char>|
            a.method_area.is_initialized(name) == b.method_area.is_initialized(name),
        forall|c: int, i: int| a.method_area.spec_constant(c, i) == b.method_area.spec_constant(c, i),
        forall|j: int|
            0 <= j < a.method_area.classes@.len() ==> same_identity(
                #[trigger] a.method_area.classes@[j],
                b.method_area.classes@[j],
            ) && same_state(a.method_area.classes@[j], b.method_area.classes@[j]),
{
    let x = a.method_area.classes@;
    let y = b.method_area.classes@;
    assert forall|j: int| 0 <= j < x.len() implies same_identity(#[trigger] x[j], y[j])
        && same_state(x[j], y[j]) by {
        if j != class {
            assert(x[j] == y[j]);
        }
    }
    assert forall|name: Seq<char>| index_of(x, name) == index_of(y, name) by {
        assert forall|j: int| 0 <= j < x.len() implies (#[trigger] x[j]).spec_name() == y[j].spec_name() by {
            assert(same_identity(x[j], y[j]));
        }
        lemma_index_of_same_names(x, y, name);
    }
    assert forall|name: Seq<char>|
        a.method_area.is_initialized(name) == b.method_area.is_initialized(name) by {
        lemma_index_of(x, name);
        match index_of(x, name) {
            Some(j) => {
                assert(same_identity(x[j], y[j]));
                if j != class {
                    assert(x[j] == y[j]);
                }
            },
            None => {},
        }
    }
    assert forall|c: int, i: int|
        a.method_area.spec_constant(c, i) == b.method_area.spec_constant(c, i) by {
        if 0 <= c < x.len() {
            assert(same_identity(x[c], y[c]));
            if c != class {
                assert(x[c] == y[c]);
            }
        }
    }
}

/// What `new`, of `length` bytes, does: it resolves the class constant with
/// index `index`, waits for the class to be initialized, and pushes the
/// reference to a new instance with every field zero.
///
/// Fails with `Resolution` where the constant is no class, with
/// `StackOverflow` where the stack is full, with `ClassNotFound` where the
/// name is that of an array class, and with `OutOfMemory` where the heap is
/// full.
pub open spec fn new_post(
    before: GlobalMemory,
    after: GlobalMemory,
    frame0: Frame,
    frame1: Frame,
    index: u16,
    length: int,
    r: Result<Step, VmError>,
) -> bool {
    let class = frame0.constant_pool as int;
    let classes = before.method_area.classes@;
    match before.method_area.spec_constant(class, index as int) {
        Some(ConstantView::Class(name)) => if frame0.operand_stack@.len() >= frame0.max_stack {
            r == Err::<Step, VmError>(VmError::StackOverflow) && frame1 == frame0 && same_but_pool(
                before,
                after,
                class,
            )
        } else if !before.method_area.is_initialized(name) {
            frame1 == frame0 && waited(before, after, class, name, r)
        } else {
            let i = index_of(classes, name)->0;
            match before.instance_failure(i) {
                Some(e) => r == Err::<Step, VmError>(e) && frame1 == frame0 && same_but_pool(
                    before,
                    after,
                    class,
                ),
                None => {
                    &&& r == Ok::<Step, VmError>(Step::Next)
                    &&& frame1@ == replaced(frame0@, 0, seq![before.heap.data@.len() as u32], length)
                    &&& frame1.same_method(&frame0)
                    &&& heap_grew(before.heap, after.heap, blank_instance(classes, i))
                    &&& after.loading == before.loading
                    &&& before.method_area.differs_in_pool(&after.method_area, class)
                },
            }
        },
        _ => r == Err::<Step, VmError>(VmError::Resolution) && frame1 == frame0 && same_but_pool(
            before,
            after,
            class,
        ),
    }
}

/// Runs `new`.
pub fn run_new(frame: &mut Frame, gm: &mut GlobalMemory, index: u16, length: usize) -> (r: Result<
    Step,
    VmError,
>)
    requires
        old(frame).wf(),
        old(gm).wf(),
        old(frame).instruction_counter + length <= usize::MAX,
    ensures
        final(frame).wf(),
        final(gm).wf(),
        new_post(*old(gm), *final(gm), *old(frame), *final(frame), index, length as int, r),
        r is Ok ==> r->Ok_0.wf(),
{
    let class = frame.constant_pool;
    let constant = match constant_of(gm, frame, index) {
        Ok(c) => c,
        Err(e) => {
            return Err(e);
        },
    };
    let name = match constant {
        Constant::Class(info) => info.name,
        _ => {
            return Err(VmError::Resolution);
        },
    };
    if frame.operand_stack.len() >= frame.max_stack {
        return Err(VmError::StackOverflow);
    }
    let ghost mid = *gm;
    proof {
        lemma_same_but_pool(*old(gm), mid, class as int);
    }
    match await_class(gm, name.as_str()) {
        Ok(None) => {},
        Ok(Some(step)) => {
            return Ok(step);
        },
        Err(e) => {
            return Err(e);
        },
    }
    let i = match gm.method_area.find(name.as_str()) {
        Some(i) => i,
        None => {
            return Err(VmError::ClassNotFound);
        },
    };
    let reference = match gm.allocate_klass(i) {
        Ok(r) => r,
        Err(e) => {
            return Err(e);
        },
    };
    let mut out: Vec<u32> = Vec::new();
    out.push(reference);
    assert(out@ =~= seq![reference]);
    let next: usize = frame.instruction_counter + length;
    frame.replace_top(0, &out, next);
    Ok(Step::Next)
}

/// The descriptor letter of the primitive type that an operand of
/// `newarray` names.
pub open spec fn primitive_letter(atype: u8) -> Option<char> {
    if atype == 4 {
        Some('Z')
    } else if atype == 5 {
        Some('C')
    } else if atype == 6 {
        Some('F')
    } else if atype == 7 {
        Some('D')
    } else if atype == 8 {
        Some('B')
    } else if atype == 9 {
        Some('S')
    } else if atype == 10 {
        Some('I')
    } else if atype == 11 {
        Some('J')
    } else {
        None
    }
}

/// What an instruction of `length` bytes does that pops a count and pushes
/// the reference to a new array of that many elements with descriptor
/// `element`, all zero.
///
/// A negative count raises `NegativeArraySizeException`. Fails with
/// `StackUnderflow` on an empty stack, and with `OutOfMemory` where the heap
/// is full or the array is too large.
pub open spec fn array_made(
    before: Heap,
    after: Heap,
    frame0: Frame,
    frame1: Frame,
    element: Seq<char>,
    length: int,
    r: Result<Step, VmError>,
) -> bool {
    let depth = frame0.operand_stack@.len() as int;
    if depth < 1 {
        r == Err::<Step, VmError>(VmError::StackUnderflow) && frame1 == frame0 && after == before
    } else {
        let count = int_of(frame0.operand_stack@[depth - 1]);
        if count < 0 {
            r == Ok::<Step, VmError>(Step::Raise(Throwable::NegativeArraySize)) && frame1 == frame0
                && after == before
        } else if before.data@.len() > u32::MAX || count * descriptor_cells(element) > usize::MAX {
            r == Err::<Step, VmError>(VmError::OutOfMemory) && frame1 == frame0 && after == before
        } else {
            &&& r == Ok::<Step, VmError>(Step::Next)
            &&& frame1@ == replaced(frame0@, 1, seq![before.data@.len() as u32], length)
            &&& frame1.same_method(&frame0)
            &&& heap_grew(before, after, blank_array(element, count))
        }
    }
}

/// Pops a count and pushes the reference to a new array.
pub fn make_array(frame: &mut Frame, heap: &mut Heap, element: &str, length: usize) -> (r: Result<
    Step,
    VmError,
>)
    requires
        old(frame).wf(),
        old(heap).wf(),
        old(frame).instruction_counter + length <= usize::MAX,
    ensures
        final(frame).wf(),
        final(heap).wf(),
        array_made(*old(heap), *final(heap), *old(frame), *final(frame), element@, length as int, r),
        r is Ok ==> r->Ok_0.wf(),
{
    let depth = frame.operand_stack.len();
    if depth < 1 {
        return Err(VmError::StackUnderflow);
    }
    let count = to_signed(frame.operand_stack[depth - 1]);
    if count < 0 {
        return Ok(Step::Raise(Throwable::NegativeArraySize));
    }
    if (count as u64) > (usize::MAX as u64) {
        assert(count * descriptor_cells(element@) > usize::MAX) by (nonlinear_arith)
            requires
                count > usize::MAX,
                descriptor_cells(element@) >= 1,
        ;
        return Err(VmError::OutOfMemory);
    }
    let reference = match heap.allocate_array(element, count as usize) {
        Ok(r) => r,
        Err(e) => {
            return Err(e);
        },
    };
    let mut out: Vec<u32> = Vec::new();
    out.push(reference);
    assert(out@ =~= seq![reference]);
    let next: usize = frame.instruction_counter + length;
    frame.replace_top(1, &out, next);
    Ok(Step::Next)
}

/// What `newarray`, of `length` bytes, does: it makes an array of the
/// primitive type that `atype` names. Fails with `BadCode` where `atype`
/// names none.
pub open spec fn new_array_post(
    before: Heap,
    after: Heap,
    frame0: Frame,
    frame1: Frame,
    atype: u8,
    length: int,
    r: Result<Step, VmError>,
) -> bool {
    match primitive_letter(atype) {
        None => r == Err::<Step, VmError>(VmError::BadCode) && frame1 == frame0 && after == before,
        Some(letter) => array_made(before, after, frame0, frame1, seq![letter], length, r),
    }
}

/// Runs `newarray`.
pub fn run_new_array(frame: &mut Frame, heap: &mut Heap, atype: u8, length: usize) -> (r: Result<
    Step,
    VmError,
>)
    requires
        old(frame).wf(),
        old(heap).wf(),
        old(frame).instruction_counter + length <= usize::MAX,
    ensures
        final(frame).wf(),
        final(heap).wf(),
        new_array_post(*old(heap), *final(heap), *old(frame), *final(frame), atype, length as int, r),
        r is Ok ==> r->Ok_0.wf(),
{
    proof {
        reveal_strlit("Z");
        reveal_strlit("C");
        reveal_strlit("F");
        reveal_strlit("D");
        reveal_strlit("B");
        reveal_strlit("S");
        reveal_strlit("I");
        reveal_strlit("J");
    }
    let element: &str = if atype == 4 {
        "Z"
    } else if atype == 5 {
        "C"
    } else if atype == 6 {
        "F"
    } else if atype == 7 {
        "D"
    } else if atype == 8 {
        "B"
    } else if atype == 9 {
        "S"
    } else if atype == 10 {
        "I"
    } else if atype == 11 {
        "J"
    } else {
        return Err(VmError::BadCode);
    };
    assert(element@ =~= seq![primitive_letter(atype)->0]);
    make_array(frame, heap, element, length)
}

/// The descriptor of the values whose class a Class constant names: the
/// name itself where it is that of an array class, which starts with `[`,
/// and `L<name>;` otherwise.
pub open spec fn descriptor_of_class(name: Seq<char>) -> Seq<char> {
    if name.len() >= 1 && name[0] == '[' {
        name
    } else {
        instance_descriptor(name)
    }
}

/// The descriptor of the values whose class a Class constant names.
pub fn class_descriptor(name: &str) -> (r: String)
    ensures
        r@ == descriptor_of_class(name@),
{
    if name.unicode_len() >= 1 && name.get_char(0) == '[' {
        name.to_owned()
    } else {
        crate::memory::make_instance_descriptor(name)
    }
}

/// The text `[<element>`.
pub fn array_of(element: &str) -> (r: String)
    ensures
        r@ == seq!['['] + element@,
{
    proof {
        reveal_strlit("[");
    }
    let mut text = "[".to_owned();
    text.append(element);
    assert(text@ =~= seq!['['] + element@);
    text
}

/// The descriptor of the elements of the array that `anewarray` makes for
/// a Class constant (`whole` is false), or `multianewarray` with one
/// dimension for the Class constant of the array class itself (`whole` is
/// true); `None` where that constant names no array class.
pub open spec fn element_of(name: Seq<char>, whole: bool) -> Option<Seq<char>> {
    if whole {
        if name.len() >= 1 && name[0] == '[' {
            Some(name.subrange(1, name.len() as int))
        } else {
            None
        }
    } else {
        Some(descriptor_of_class(name))
    }
}

/// What `anewarray`, and `multianewarray` with one dimension, of `length`
/// bytes, do: they resolve the class constant with index `index` and make
/// an array of the elements that `element_of` names. On the first array of
/// a kind, they first register the array class, and are to be run again.
pub open spec fn reference_array_post(
    before: GlobalMemory,
    after: GlobalMemory,
    frame0: Frame,
    frame1: Frame,
    index: u16,
    whole: bool,
    length: int,
    r: Result<Step, VmError>,
) -> bool {
    let class = frame0.constant_pool as int;
    let unchanged = frame1 == frame0 && same_but_pool(before, after, class);
    match before.method_area.spec_constant(class, index as int) {
        Some(ConstantView::Class(name)) => match element_of(name, whole) {
            None => r == Err::<Step, VmError>(VmError::Resolution) && unchanged,
            Some(element) => if index_of(before.method_area.classes@, seq!['['] + element) is None {
                frame1 == frame0 && array_registered(before, after, class, seq!['['] + element, r)
            } else {
                &&& array_made(before.heap, after.heap, frame0, frame1, element, length, r)
                &&& after.loading == before.loading
                &&& before.method_area.differs_in_pool(&after.method_area, class)
            },
        },
        _ => r == Err::<Step, VmError>(VmError::Resolution) && unchanged,
    }
}

/// Whether `after` is what `ensure_array` for the descriptor `name` leaves
/// of `before`, after the class at position `class` has resolved constants,
/// and `r` tells of it.
pub open spec fn array_registered(
    before: GlobalMemory,
    after: GlobalMemory,
    class: int,
    name: Seq<char>,
    r: Result<Step, VmError>,
) -> bool {
    exists|mid: GlobalMemory|
        {
            &&& #[trigger] same_but_pool(before, mid, class)
            &&& after.loading == mid.loading
            &&& match mid.mirror_failure() {
                Some(e) => r == Err::<Step, VmError>(e) && after.heap == mid.heap
                    && after.method_area == mid.method_area,
                None => {
                    &&& r == Ok::<Step, VmError>(Step::Again)
                    &&& heap_grew(mid.heap, after.heap, mid.blank_mirror())
                    &&& after.method_area.classes@.len() == mid.method_area.classes@.len() + 1
                    &&& after.method_area.classes@.drop_last() == mid.method_area.classes@
                    &&& after.method_area.classes@.last() is Array
                    &&& after.method_area.classes@.last().spec_name() == name
                    &&& after.method_area.classes@.last()->Array_0.java_clone == Some(
                        mid.heap.data@.len() as u32,
                    )
                },
            }
        }
}

/// Registers the array class with descriptor `name`, if it is not
/// registered; returns whether it was.
fn await_array(gm: &mut GlobalMemory, name: String, Ghost(before): Ghost<GlobalMemory>, Ghost(class): Ghost<int>) -> (r: Result<Option<Step>, VmError>)
    requires
        old(gm).wf(),
        same_but_pool(before, *old(gm), class),
    ensures
        final(gm).wf(),
        if index_of(old(gm).method_area.classes@, name@) is Some {
            r is Ok && r->Ok_0 is None && *final(gm) == *old(gm)
        } else {
            match r {
                Ok(Some(step)) => array_registered(before, *final(gm), class, name@, Ok(step))
                    && step.wf(),
                Ok(None) => false,
                Err(e) => array_registered(before, *final(gm), class, name@, Err(e)),
            }
        },
{
    if gm.method_area.find(name.as_str()).is_some() {
        return Ok(None);
    }
    let ghost mid = *gm;
    match gm.ensure_array(name) {
        Ok(()) => {
            assert(gm.method_area.classes@.drop_last() =~= mid.method_area.classes@);
            assert(same_but_pool(before, mid, class));
            Ok(Some(Step::Again))
        },
        Err(e) => {
            assert(same_but_pool(before, mid, class));
            Err(e)
        },
    }
}

/// Runs `anewarray` (`whole` is false) or `multianewarray` with one
/// dimension (`whole` is true).
pub fn run_reference_array(
    frame: &mut Frame,
    gm: &mut GlobalMemory,
    index: u16,
    whole: bool,
    length: usize,
) -> (r: Result<Step, VmError>)
    requires
        old(frame).wf(),
        old(gm).wf(),
        old(frame).instruction_counter + length <= usize::MAX,
    ensures
        final(frame).wf(),
        final(gm).wf(),
        reference_array_post(
            *old(gm),
            *final(gm),
            *old(frame),
            *final(frame),
            index,
            whole,
            length as int,
            r,
        ),
        r is Ok ==> r->Ok_0.wf(),
{
    let ghost class = frame.constant_pool as int;
    let constant = match constant_of(gm, frame, index) {
        Ok(c) => c,
        Err(e) => {
            return Err(e);
        },
    };
    let name = match constant {
        Constant::Class(info) => info.name,
        _ => {
            return Err(VmError::Resolution);
        },
    };
    let element: String = if whole {
        let text = name.as_str();
        let size = text.unicode_len();
        if size >= 1 && text.get_char(0) == '[' {
            text.substring_char(1, size).to_owned()
        } else {
            return Err(VmError::Resolution);
        }
    } else {
        class_descriptor(name.as_str())
    };
    let array = array_of(element.as_str());
    proof {
        lemma_same_but_pool(*old(gm), *gm, class);
    }
    match await_array(gm, array, Ghost(*old(gm)), Ghost(class)) {
        Ok(None) => {},
        Ok(Some(step)) => {
            return Ok(step);
        },
        Err(e) => {
            return Err(e);
        },
    }
    make_array(frame, &mut gm.heap, element.as_str(), length)
}

} // verus!
