//! The instructions that read and write the objects of the heap: arrays,
//! their elements and their length.

use vstd::prelude::*;
use vstd::string::*;

use crate::cell::{apply_narrow, cell_of, int_of, narrow, to_signed, Narrow};
use crate::error::VmError;
use crate::frame::{frame_follows, Effect, Flow, Frame, FrameState, Throwable};
use crate::heap::{Heap, HeapItem, ObjectView};
use crate::instr::Element;

verus! {

/// The number of cells that an element of this kind takes.
pub open spec fn element_cells(kind: Element) -> int {
    match kind {
        Element::Long | Element::Double => 2,
        _ => 1,
    }
}

/// The cell that stands for an element of a sub-word kind: the low bits of
/// the cell, sign-extended for `byte` and `short`, zero-extended for `char`.
/// An array load widens by it and an array store narrows by it.
pub open spec fn fit_element(kind: Element, c: u32) -> u32 {
    match kind {
        Element::Byte => narrow(Narrow::Byte, c),
        Element::Char => narrow(Narrow::Char, c),
        Element::Short => narrow(Narrow::Short, c),
        _ => c,
    }
}

/// Whether an object is an array: its descriptor starts with `[`.
pub open spec fn is_array(object: ObjectView) -> bool {
    object.descriptor.len() >= 1 && object.descriptor[0] == '['
}

/// The number of cells that an element of the array takes, by the
/// descriptor of the array: 2 for `[J` and `[D`, 1 for every other.
pub open spec fn array_element_cells(object: ObjectView) -> int {
    if object.descriptor.len() >= 2 && (object.descriptor[1] == 'J' || object.descriptor[1] == 'D') {
        2
    } else {
        1
    }
}

/// The state of a frame after an instruction of `length` bytes has
/// replaced the `pops` topmost cells by `out`.
pub open spec fn replaced(s: FrameState, pops: int, out: Seq<u32>, length: int) -> FrameState {
    FrameState {
        locals: s.locals,
        stack: s.stack.subrange(0, s.stack.len() - pops) + out,
        pc: s.pc + length,
    }
}

/// What stands in the way of an access to element `index` of the array
/// that `reference` leads to, with elements of `width` cells: a null
/// reference raises `NullPointerException`; a reference to no object, or to
/// an object that is no array, fails with `BadReference`; an index outside
/// the array raises `ArrayIndexOutOfBoundsException`.
pub open spec fn element_barrier(objects: Seq<ObjectView>, reference: u32, index: u32, width: int) -> Option<
    Result<Effect, VmError>,
> {
    if reference == 0 {
        Some(Ok(Effect::Raise(Throwable::NullPointer)))
    } else if reference >= objects.len() || !is_array(objects[reference as int]) {
        Some(Err(VmError::BadReference))
    } else if int_of(index) < 0 || (int_of(index) + 1) * width > objects[reference as int].cells.len() {
        Some(Ok(Effect::Raise(Throwable::ArrayIndex)))
    } else {
        None
    }
}

/// What an array load of `length` bytes makes of a frame. It pops the index
/// and the array reference and pushes the element, widened where its kind
/// is narrower than a cell; an element of two cells is pushed high word
/// first.
pub open spec fn array_load_effect(
    kind: Element,
    length: int,
    s: FrameState,
    objects: Seq<ObjectView>,
) -> Result<Effect, VmError> {
    let depth = s.stack.len() as int;
    let width = element_cells(kind);
    if depth < 2 {
        Err(VmError::StackUnderflow)
    } else {
        let reference = s.stack[depth - 2];
        let index = s.stack[depth - 1];
        match element_barrier(objects, reference, index, width) {
            Some(r) => r,
            None => {
                let cells = objects[reference as int].cells;
                let at = int_of(index) * width;
                Ok(
                    Effect::Next(
                        replaced(
                            s,
                            2,
                            if width == 2 {
                                seq![cells[at], cells[at + 1]]
                            } else {
                                seq![fit_element(kind, cells[at])]
                            },
                            length,
                        ),
                    ),
                )
            },
        }
    }
}

/// What an array store of `length` bytes makes of a frame: it pops the
/// value, the index and the array reference.
pub open spec fn array_store_effect(
    kind: Element,
    length: int,
    s: FrameState,
    objects: Seq<ObjectView>,
) -> Result<Effect, VmError> {
    let depth = s.stack.len() as int;
    let width = element_cells(kind);
    if depth < 2 + width {
        Err(VmError::StackUnderflow)
    } else {
        let reference = s.stack[depth - 2 - width];
        let index = s.stack[depth - 1 - width];
        match element_barrier(objects, reference, index, width) {
            Some(r) => r,
            None => Ok(Effect::Next(replaced(s, 2 + width, Seq::empty(), length))),
        }
    }
}

/// The objects after an array store: the element has the value that was
/// popped, narrowed to its kind; an element of two cells takes the two
/// cells of the value. No other cell and no other object changes.
pub open spec fn array_store_objects(kind: Element, s: FrameState, objects: Seq<ObjectView>) -> Seq<
    ObjectView,
> {
    let depth = s.stack.len() as int;
    let width = element_cells(kind);
    let reference = s.stack[depth - 2 - width];
    let at = int_of(s.stack[depth - 1 - width]) * width;
    let object = objects[reference as int];
    objects.update(
        reference as int,
        ObjectView {
            descriptor: object.descriptor,
            cells: if width == 2 {
                object.cells.update(at, s.stack[depth - 2]).update(at + 1, s.stack[depth - 1])
            } else {
                object.cells.update(at, fit_element(kind, s.stack[depth - 1]))
            },
        },
    )
}

/// What `arraylength`, of `length` bytes, makes of a frame: it pops the
/// array reference and pushes the number of elements, which is the number
/// of cells divided by the cells that an element takes.
pub open spec fn array_length_effect(length: int, s: FrameState, objects: Seq<ObjectView>) -> Result<
    Effect,
    VmError,
> {
    let depth = s.stack.len() as int;
    if depth < 1 {
        Err(VmError::StackUnderflow)
    } else {
        let reference = s.stack[depth - 1];
        if reference == 0 {
            Ok(Effect::Raise(Throwable::NullPointer))
        } else if reference >= objects.len() || !is_array(objects[reference as int]) {
            Err(VmError::BadReference)
        } else {
            let object = objects[reference as int];
            Ok(
                Effect::Next(
                    replaced(
                        s,
                        1,
                        seq![cell_of(object.cells.len() as int / array_element_cells(object))],
                        length,
                    ),
                ),
            )
        }
    }
}

/// The number of cells that an element of this kind takes.
pub fn element_width(kind: Element) -> (r: usize)
    ensures
        r == element_cells(kind),
{
    match kind {
        Element::Long => 2,
        Element::Double => 2,
        _ => 1,
    }
}

/// Widens or narrows a cell to an element of this kind.
pub fn fit(kind: Element, c: u32) -> (r: u32)
    ensures
        r == fit_element(kind, c),
{
    match kind {
        Element::Byte => apply_narrow(Narrow::Byte, c),
        Element::Char => apply_narrow(Narrow::Char, c),
        Element::Short => apply_narrow(Narrow::Short, c),
        _ => c,
    }
}

impl HeapItem {
    /// Whether the object is an array.
    pub fn is_array(&self) -> (r: bool)
        ensures
            r == is_array(self@),
    {
        let text = self.field_descriptor.as_str();
        text.unicode_len() >= 1 && text.get_char(0) == '['
    }

    /// The number of cells that an element of the array takes.
    pub fn element_width(&self) -> (r: usize)
        ensures
            r == array_element_cells(self@),
    {
        let text = self.field_descriptor.as_str();
        if text.unicode_len() >= 2 {
            let c = text.get_char(1);
            if c == 'J' || c == 'D' {
                2
            } else {
                1
            }
        } else {
            1
        }
    }
}

/// Why an element of an array cannot be had, if it cannot.
fn check_element(heap: &Heap, reference: u32, index: u32, width: usize) -> (r: Option<
    Result<Flow, VmError>,
>)
    requires
        1 <= width <= 2,
    ensures
        match element_barrier(heap.objects(), reference, index, width as int) {
            Some(Ok(Effect::Raise(t))) => r == Some(Ok::<Flow, VmError>(Flow::Raise(t))),
            Some(Err(e)) => r == Some(Err::<Flow, VmError>(e)),
            Some(_) => false,
            None => r is None && reference < heap.data@.len() && 0 <= int_of(index) && (int_of(
                index,
            ) + 1) * width <= heap.data@[reference as int].data@.len(),
        },
{
    if reference == 0 {
        return Some(Ok(Flow::Raise(Throwable::NullPointer)));
    }
    let object = match heap.load(reference) {
        Some(o) => o,
        None => {
            return Some(Err(VmError::BadReference));
        },
    };
    assert(heap.objects()[reference as int] == object@);
    if !object.is_array() {
        return Some(Err(VmError::BadReference));
    }
    let i = to_signed(index);
    if i < 0 {
        return Some(Ok(Flow::Raise(Throwable::ArrayIndex)));
    }
    let cells = object.data.len();
    if (i as usize) >= cells / width {
        assert((i + 1) * width > cells) by (nonlinear_arith)
            requires
                i >= (cells as int) / (width as int),
                1 <= width <= 2,
                cells >= 0,
        ;
        return Some(Ok(Flow::Raise(Throwable::ArrayIndex)));
    }
    assert((i + 1) * width <= cells) by (nonlinear_arith)
        requires
            i < (cells as int) / (width as int),
            1 <= width <= 2,
            cells >= 0,
    ;
    None
}

/// Runs an array load of `length` bytes.
pub fn run_array_load(frame: &mut Frame, heap: &Heap, kind: Element, length: usize) -> (r: Result<
    Flow,
    VmError,
>)
    requires
        old(frame).wf(),
        old(frame).instruction_counter + length <= usize::MAX,
    ensures
        final(frame).wf(),
        frame_follows(
            *old(frame),
            *final(frame),
            r,
            array_load_effect(kind, length as int, old(frame)@, heap.objects()),
        ),
{
    let depth = frame.operand_stack.len();
    if depth < 2 {
        return Err(VmError::StackUnderflow);
    }
    let reference = frame.operand_stack[depth - 2];
    let index = frame.operand_stack[depth - 1];
    let width = element_width(kind);
    match check_element(heap, reference, index, width) {
        Some(r) => {
            return r;
        },
        None => {},
    }
    let object = &heap.data[reference as usize];
    assert(heap.objects()[reference as int] == object@);
    let cells = object.data.len();
    assert((int_of(index) + 1) * width == int_of(index) * width + width) by (nonlinear_arith);
    let at: usize = (to_signed(index) as usize) * width;
    let mut out: Vec<u32> = Vec::new();
    if width == 2 {
        out.push(object.data[at]);
        out.push(object.data[at + 1]);
        assert(out@ =~= seq![object.data@[at as int], object.data@[at + 1]]);
    } else {
        out.push(fit(kind, object.data[at]));
        assert(out@ =~= seq![fit_element(kind, object.data@[at as int])]);
    }
    let next: usize = frame.instruction_counter + length;
    frame.replace_top(2, &out, next);
    Ok(Flow::Next)
}

/// Runs an array store of `length` bytes.
pub fn run_array_store(frame: &mut Frame, heap: &mut Heap, kind: Element, length: usize) -> (r:
    Result<Flow, VmError>)
    requires
        old(frame).wf(),
        old(heap).wf(),
        old(frame).instruction_counter + length <= usize::MAX,
    ensures
        final(frame).wf(),
        final(heap).wf(),
        frame_follows(
            *old(frame),
            *final(frame),
            r,
            array_store_effect(kind, length as int, old(frame)@, old(heap).objects()),
        ),
        r == Ok::<Flow, VmError>(Flow::Next) ==> final(heap).objects() == array_store_objects(
            kind,
            old(frame)@,
            old(heap).objects(),
        ),
        r != Ok::<Flow, VmError>(Flow::Next) ==> *final(heap) == *old(heap),
{
    let depth = frame.operand_stack.len();
    let width = element_width(kind);
    if depth < 2 + width {
        return Err(VmError::StackUnderflow);
    }
    let reference = frame.operand_stack[depth - 2 - width];
    let index = frame.operand_stack[depth - 1 - width];
    match check_element(heap, reference, index, width) {
        Some(r) => {
            return r;
        },
        None => {},
    }
    let cells = heap.data[reference as usize].data.len();
    assert((int_of(index) + 1) * width == int_of(index) * width + width) by (nonlinear_arith);
    let at: usize = (to_signed(index) as usize) * width;
    let ghost before = heap.objects();
    let object = heap.load_mut(reference);
    if width == 2 {
        object.data[at] = frame.operand_stack[depth - 2];
        object.data[at + 1] = frame.operand_stack[depth - 1];
    } else {
        object.data[at] = fit(kind, frame.operand_stack[depth - 1]);
    }
    assert(heap.objects() =~= array_store_objects(kind, old(frame)@, before));
    let out: Vec<u32> = Vec::new();
    let next: usize = frame.instruction_counter + length;
    frame.replace_top(2 + width, &out, next);
    Ok(Flow::Next)
}

/// Runs `arraylength`, of `length` bytes.
pub fn run_array_length(frame: &mut Frame, heap: &Heap, length: usize) -> (r: Result<Flow, VmError>)
    requires
        old(frame).wf(),
        old(frame).instruction_counter + length <= usize::MAX,
    ensures
        final(frame).wf(),
        frame_follows(
            *old(frame),
            *final(frame),
            r,
            array_length_effect(length as int, old(frame)@, heap.objects()),
        ),
{
    let depth = frame.operand_stack.len();
    if depth < 1 {
        return Err(VmError::StackUnderflow);
    }
    let reference = frame.operand_stack[depth - 1];
    if reference == 0 {
        return Ok(Flow::Raise(Throwable::NullPointer));
    }
    let object = match heap.load(reference) {
        Some(o) => o,
        None => {
            return Err(VmError::BadReference);
        },
    };
    assert(heap.objects()[reference as int] == object@);
    if !object.is_array() {
        return Err(VmError::BadReference);
    }
    let elements: usize = object.data.len() / object.element_width();
    let mut out: Vec<u32> = Vec::new();
    out.push(((elements as u64) % 0x1_0000_0000) as u32);
    assert(out@ =~= seq![cell_of(object.data@.len() as int / array_element_cells(object@))]);
    let next: usize = frame.instruction_counter + length;
    frame.replace_top(1, &out, next);
    Ok(Flow::Next)
}

} // verus!
