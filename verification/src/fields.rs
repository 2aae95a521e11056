//! The four field instructions: `getstatic`, `putstatic`, `getfield`,
//! `putfield`.

use vstd::prelude::*;
use vstd::string::*;

use crate::descriptor::{
    field_type_end, lemma_field_type_end, lemma_text_head, parse_field_descriptor, FieldType,
};
use crate::error::VmError;
use crate::frame::{Effect, Frame, FrameState, Throwable};
use crate::heap::{descriptor_cells, HeapItem, ObjectView};
use crate::interp::{
    await_class, constant_of, lemma_same_but_pool, same_but_pool, step_follows, waited, Step,
};
use crate::klass::{
    index_of, instance_index, lemma_index_of, lemma_update_keeps_wf, offset_in, same_identity,
    Klass, MethodArea,
};
use crate::memory::GlobalMemory;
use crate::objects::replaced;
use crate::parse::{Constant, ConstantView};

verus! {

/// The parts of a field reference: the class that it names, the name of
/// the field and the descriptor of its type.
pub struct FieldKey {
    pub class: Seq<char>,
    pub name: Seq<char>,
    pub descriptor: Seq<char>,
}

/// The parts of a resolved field reference; `None` for a constant of
/// another kind.
pub open spec fn field_key(c: Option<ConstantView>) -> Option<FieldKey> {
    match c {
        Some(ConstantView::FieldRef(class, member)) => match *member {
            ConstantView::NameAndType(name, descriptor) => Some(FieldKey { class, name, descriptor }),
            _ => None,
        },
        _ => None,
    }
}

/// The number of cells that a value of the type with this descriptor
/// takes; `None` where the text is no descriptor.
pub open spec fn value_cells(descriptor: Seq<char>) -> Option<int> {
    match field_type_end(descriptor, 0) {
        Some(_) => Some(descriptor_cells(descriptor)),
        None => None,
    }
}

/// The name of the class of which an object with this descriptor is an
/// instance; `None` where the descriptor is not of the form `L<name>;`.
pub open spec fn class_of_object(descriptor: Seq<char>) -> Option<Seq<char>> {
    match field_type_end(descriptor, 0) {
        Some(end) => if descriptor[0] == 'L' {
            Some(descriptor.subrange(1, end - 1))
        } else {
            None
        },
        None => None,
    }
}

/// The number of cells that a value of the type with this descriptor takes.
pub fn cells_of(descriptor: &String) -> (r: Result<usize, VmError>)
    ensures
        match value_cells(descriptor@) {
            Some(w) => r == Ok::<usize, VmError>(w as usize) && 1 <= w <= 2,
            None => r == Err::<usize, VmError>(VmError::Descriptor),
        },
{
    match parse_field_descriptor(descriptor) {
        Ok(d) => {
            proof {
                lemma_text_head(d.field_type);
                lemma_field_type_end(descriptor@, 0);
            }
            Ok(d.field_type.width())
        },
        Err(e) => Err(e),
    }
}

/// The name of the class of which an object is an instance.
pub fn object_class(object: &HeapItem) -> (r: Option<String>)
    ensures
        match class_of_object(object@.descriptor) {
            Some(name) => r is Some && r->0@ == name,
            None => r is None,
        },
{
    match parse_field_descriptor(&object.field_descriptor) {
        Ok(d) => {
            proof {
                lemma_text_head(d.field_type);
                lemma_field_type_end(object@.descriptor, 0);
            }
            match d.field_type {
                FieldType::ClassInstance(name) => {
                    let ghost end = field_type_end(object@.descriptor, 0)->0;
                    assert(name@ =~= object@.descriptor.subrange(0, end).subrange(1, end - 1));
                    assert(object@.descriptor.subrange(0, end).subrange(1, end - 1)
                        =~= object@.descriptor.subrange(1, end - 1));
                    Some(name)
                },
                _ => None,
            }
        },
        Err(_) => None,
    }
}

/// The parts of a resolved field reference.
pub fn key_of(constant: Constant) -> (r: Option<(String, String, String)>)
    ensures
        match (field_key(Some(constant@)), r) {
            (Some(key), Some((class, name, descriptor))) => class@ == key.class && name@ == key.name
                && descriptor@ == key.descriptor,
            (None, None) => true,
            _ => false,
        },
{
    reveal_with_fuel(Constant::content, 2);
    match constant {
        Constant::FieldRef(info, member) => match *member {
            Constant::NameAndType(name, descriptor) => Some((info.name, name, descriptor)),
            _ => None,
        },
        _ => None,
    }
}

/// The static storage of the class at position `i`.
pub open spec fn statics_of(classes: Seq<Klass>, i: int) -> Seq<u32> {
    classes[i]->Instance_0.static_field_values@
}

/// What stands in the way of an access to the static field `key`, of
/// `width` cells, once its class is initialized: `NoSuchField` where the
/// class is an array class or has no static field of that name,
/// `BadReference` where the field as the reference describes it does not
/// fit in the static storage.
pub open spec fn static_barrier(classes: Seq<Klass>, key: FieldKey, width: int) -> Option<VmError> {
    match instance_index(classes, key.class) {
        None => Some(VmError::NoSuchField),
        Some(i) => match offset_in(classes[i]->Instance_0.static_fields@, key.name) {
            None => Some(VmError::NoSuchField),
            Some(offset) => if offset + width > statics_of(classes, i).len() {
                Some(VmError::BadReference)
            } else {
                None
            },
        },
    }
}

/// Where the static field `key` stands: the position of its class, and its
/// offset in the static storage of the class.
pub open spec fn static_place(classes: Seq<Klass>, key: FieldKey) -> (int, int) {
    let i = instance_index(classes, key.class)->0;
    (i, offset_in(classes[i]->Instance_0.static_fields@, key.name)->0 as int)
}

/// What `getstatic`, of `length` bytes, does: it resolves the field
/// reference with index `index`, waits for the class to be initialized, and
/// pushes the cells of the field from the static storage of the class.
///
/// Fails with `Resolution` where the constant is no field reference, with
/// `Descriptor` where the type of the field is malformed, with
/// `StackOverflow` where the value does not fit on the stack, and as
/// `static_barrier` says.
pub open spec fn get_static_post(
    before: GlobalMemory,
    after: GlobalMemory,
    frame0: Frame,
    frame1: Frame,
    index: u16,
    length: int,
    r: Result<Step, VmError>,
) -> bool {
    let class = frame0.constant_pool as int;
    let classes = before.method_area.classes@;
    let unchanged = frame1 == frame0 && same_but_pool(before, after, class);
    match field_key(before.method_area.spec_constant(class, index as int)) {
        None => r == Err::<Step, VmError>(VmError::Resolution) && unchanged,
        Some(key) => match value_cells(key.descriptor) {
            None => r == Err::<Step, VmError>(VmError::Descriptor) && unchanged,
            Some(width) => if frame0.operand_stack@.len() + width > frame0.max_stack {
                r == Err::<Step, VmError>(VmError::StackOverflow) && unchanged
            } else if !before.method_area.is_initialized(key.class) {
                frame1 == frame0 && waited(before, after, class, key.class, r)
            } else {
                match static_barrier(classes, key, width) {
                    Some(e) => r == Err::<Step, VmError>(e) && unchanged,
                    None => {
                        let (i, offset) = static_place(classes, key);
                        &&& r == Ok::<Step, VmError>(Step::Next)
                        &&& frame1@ == replaced(
                            frame0@,
                            0,
                            statics_of(classes, i).subrange(offset, offset + width),
                            length,
                        )
                        &&& frame1.same_method(&frame0)
                        &&& same_but_pool(before, after, class)
                    },
                }
            },
        },
    }
}

/// Whether `after` is `before` but for the constants that the class at
/// position `class` has resolved and for the static storage of the class at
/// position `i`, which is `values`.
pub open spec fn statics_changed(
    before: MethodArea,
    after: MethodArea,
    class: int,
    i: int,
    values: Seq<u32>,
) -> bool {
    &&& after.classes@.len() == before.classes@.len()
    &&& forall|j: int|
        0 <= j < before.classes@.len() && j != class && j != i ==> (#[trigger] after.classes@[j])
            == before.classes@[j]
    &&& forall|j: int|
        0 <= j < before.classes@.len() && (j == class || j == i) ==> match (
            #[trigger] before.classes@[j],
            after.classes@[j],
        ) {
            (Klass::Instance(x), Klass::Instance(y)) => {
                &&& same_identity(before.classes@[j], after.classes@[j])
                &&& y.static_field_values@ == if j == i {
                    values
                } else {
                    x.static_field_values@
                }
                &&& x.java_clone == y.java_clone
                &&& x.initialized == y.initialized
                &&& (x.constant_pool is Some) == (y.constant_pool is Some)
                &&& (j != class ==> x.constant_pool == y.constant_pool)
            },
            _ => before.classes@[j] == after.classes@[j],
        }
}

/// The cells `values` written over those of `cells` from `offset` on.
pub open spec fn overwritten(cells: Seq<u32>, offset: int, values: Seq<u32>) -> Seq<u32> {
    Seq::new(
        cells.len(),
        |k: int|
            if offset <= k < offset + values.len() {
                values[k - offset]
            } else {
                cells[k]
            },
    )
}

/// What `putstatic`, of `length` bytes, does: it resolves the field
/// reference with index `index`, waits for the class to be initialized, and
/// pops the cells of the value into the static storage of the class.
pub open spec fn put_static_post(
    before: GlobalMemory,
    after: GlobalMemory,
    frame0: Frame,
    frame1: Frame,
    index: u16,
    length: int,
    r: Result<Step, VmError>,
) -> bool {
    let class = frame0.constant_pool as int;
    let classes = before.method_area.classes@;
    let depth = frame0.operand_stack@.len() as int;
    let unchanged = frame1 == frame0 && same_but_pool(before, after, class);
    match field_key(before.method_area.spec_constant(class, index as int)) {
        None => r == Err::<Step, VmError>(VmError::Resolution) && unchanged,
        Some(key) => match value_cells(key.descriptor) {
            None => r == Err::<Step, VmError>(VmError::Descriptor) && unchanged,
            Some(width) => if depth < width {
                r == Err::<Step, VmError>(VmError::StackUnderflow) && unchanged
            } else if !before.method_area.is_initialized(key.class) {
                frame1 == frame0 && waited(before, after, class, key.class, r)
            } else {
                match static_barrier(classes, key, width) {
                    Some(e) => r == Err::<Step, VmError>(e) && unchanged,
                    None => {
                        let (i, offset) = static_place(classes, key);
                        &&& r == Ok::<Step, VmError>(Step::Next)
                        &&& frame1@ == replaced(frame0@, width, Seq::empty(), length)
                        &&& frame1.same_method(&frame0)
                        &&& after.heap == before.heap
                        &&& after.loading == before.loading
                        &&& statics_changed(
                            before.method_area,
                            after.method_area,
                            class,
                            i,
                            overwritten(
                                statics_of(classes, i),
                                offset,
                                frame0.operand_stack@.subrange(depth - width, depth),
                            ),
                        )
                    },
                }
            },
        },
    }
}

/// Finds the static field `name` of the class named `class`.
fn find_static(area: &MethodArea, class: &String, name: &String, width: usize) -> (r: Result<
    (usize, usize),
    VmError,
>)
    requires
        area.wf(),
    ensures
        ({
            let key = FieldKey { class: class@, name: name@, descriptor: Seq::empty() };
            match static_barrier(area.classes@, key, width as int) {
                Some(e) => r == Err::<(usize, usize), VmError>(e),
                None => {
                    &&& r is Ok
                    &&& (r->Ok_0.0 as int, r->Ok_0.1 as int) == static_place(area.classes@, key)
                    &&& r->Ok_0.0 < area.classes@.len()
                    &&& area.classes@[r->Ok_0.0 as int] is Instance
                    &&& r->Ok_0.1 + width <= statics_of(area.classes@, r->Ok_0.0 as int).len()
                },
            }
        }),
{
    proof {
        lemma_index_of(area.classes@, class@);
    }
    let i = match area.find(class.as_str()) {
        Some(i) => i,
        None => {
            return Err(VmError::NoSuchField);
        },
    };
    match &area.classes[i] {
        Klass::Instance(k) => {
            assert(k.wf());
            let offset = match k.static_field_offset_with_strings(class, name) {
                Ok(o) => o,
                Err(e) => {
                    return Err(e);
                },
            };
            let size = k.static_field_values.len();
            if offset > size || size - offset < width {
                return Err(VmError::BadReference);
            }
            Ok((i, offset))
        },
        Klass::Array(_) => Err(VmError::NoSuchField),
    }
}

/// Runs `getstatic`.
pub fn run_get_static(frame: &mut Frame, gm: &mut GlobalMemory, index: u16, length: usize) -> (r:
    Result<Step, VmError>)
    requires
        old(frame).wf(),
        old(gm).wf(),
        old(frame).instruction_counter + length <= usize::MAX,
    ensures
        final(frame).wf(),
        final(gm).wf(),
        get_static_post(*old(gm), *final(gm), *old(frame), *final(frame), index, length as int, r),
        r is Ok ==> r->Ok_0.wf(),
{
    let ghost class = frame.constant_pool as int;
    let constant = match constant_of(gm, frame, index) {
        Ok(c) => c,
        Err(e) => {
            return Err(e);
        },
    };
    let (owner, name, descriptor) = match key_of(constant) {
        Some(parts) => parts,
        None => {
            return Err(VmError::Resolution);
        },
    };
    let width = match cells_of(&descriptor) {
        Ok(w) => w,
        Err(e) => {
            return Err(e);
        },
    };
    let depth = frame.operand_stack.len();
    if frame.max_stack < width || depth > frame.max_stack - width {
        return Err(VmError::StackOverflow);
    }
    let ghost mid = *gm;
    proof {
        lemma_same_but_pool(*old(gm), mid, class);
    }
    match await_class(gm, owner.as_str()) {
        Ok(None) => {},
        Ok(Some(step)) => {
            return Ok(step);
        },
        Err(e) => {
            return Err(e);
        },
    }
    proof {
        let key = field_key(old(gm).method_area.spec_constant(class, index as int))->0;
        let bare = FieldKey { class: owner@, name: name@, descriptor: Seq::empty() };
        let x = old(gm).method_area.classes@;
        let y = gm.method_area.classes@;
        lemma_index_of(x, owner@);
        match index_of(x, owner@) {
            Some(i) => {
                assert(same_identity(x[i], y[i]) && crate::interp::same_state(x[i], y[i]));
            },
            None => {},
        }
        assert(static_barrier(x, key, width as int) == static_barrier(y, bare, width as int));
        assert(static_barrier(x, key, width as int) is None ==> static_place(x, key)
            == static_place(y, bare));
    }
    let (i, offset) = match find_static(&gm.method_area, &owner, &name, width) {
        Ok(place) => place,
        Err(e) => {
            return Err(e);
        },
    };
    let mut out: Vec<u32> = Vec::new();
    match &gm.method_area.classes[i] {
        Klass::Instance(k) => {
            out.push(k.static_field_values[offset]);
            if width == 2 {
                out.push(k.static_field_values[offset + 1]);
            }
            assert(out@ =~= k.static_field_values@.subrange(offset as int, offset + width));
        },
        Klass::Array(_) => {},
    }
    proof {
        assert(same_identity(old(gm).method_area.classes@[i as int], mid.method_area.classes@[i as int]));
    }
    let next: usize = frame.instruction_counter + length;
    frame.replace_top(0, &out, next);
    Ok(Step::Next)
}

/// Runs `putstatic`.
pub fn run_put_static(frame: &mut Frame, gm: &mut GlobalMemory, index: u16, length: usize) -> (r:
    Result<Step, VmError>)
    requires
        old(frame).wf(),
        old(gm).wf(),
        old(frame).instruction_counter + length <= usize::MAX,
    ensures
        final(frame).wf(),
        final(gm).wf(),
        put_static_post(*old(gm), *final(gm), *old(frame), *final(frame), index, length as int, r),
        r is Ok ==> r->Ok_0.wf(),
{
    let ghost class = frame.constant_pool as int;
    let constant = match constant_of(gm, frame, index) {
        Ok(c) => c,
        Err(e) => {
            return Err(e);
        },
    };
    let (owner, name, descriptor) = match key_of(constant) {
        Some(parts) => parts,
        None => {
            return Err(VmError::Resolution);
        },
    };
    let width = match cells_of(&descriptor) {
        Ok(w) => w,
        Err(e) => {
            return Err(e);
        },
    };
    let depth = frame.operand_stack.len();
    if depth < width {
        return Err(VmError::StackUnderflow);
    }
    let ghost mid = *gm;
    proof {
        lemma_same_but_pool(*old(gm), mid, class);
    }
    match await_class(gm, owner.as_str()) {
        Ok(None) => {},
        Ok(Some(step)) => {
            return Ok(step);
        },
        Err(e) => {
            return Err(e);
        },
    }
    proof {
        let key = field_key(old(gm).method_area.spec_constant(class, index as int))->0;
        let bare = FieldKey { class: owner@, name: name@, descriptor: Seq::empty() };
        let x = old(gm).method_area.classes@;
        let y = gm.method_area.classes@;
        lemma_index_of(x, owner@);
        match index_of(x, owner@) {
            Some(i) => {
                assert(same_identity(x[i], y[i]) && crate::interp::same_state(x[i], y[i]));
            },
            None => {},
        }
        assert(static_barrier(x, key, width as int) == static_barrier(y, bare, width as int));
        assert(static_barrier(x, key, width as int) is None ==> static_place(x, key)
            == static_place(y, bare));
    }
    let (i, offset) = match find_static(&gm.method_area, &owner, &name, width) {
        Ok(place) => place,
        Err(e) => {
            return Err(e);
        },
    };
    let ghost area = gm.method_area;
    let ghost values = frame.operand_stack@.subrange(depth - width, depth as int);
    match &mut gm.method_area.classes[i] {
        Klass::Instance(k) => {
            let ghost cells = k.static_field_values@;
            if width == 2 {
                k.static_field_values[offset] = frame.operand_stack[depth - 2];
                k.static_field_values[offset + 1] = frame.operand_stack[depth - 1];
            } else {
                k.static_field_values[offset] = frame.operand_stack[depth - 1];
            }
            assert(k.static_field_values@ =~= overwritten(cells, offset as int, values));
        },
        Klass::Array(_) => {},
    }
    proof {
        let record = gm.method_area.classes@[i as int];
        assert(gm.method_area.classes@ =~= area.classes@.update(i as int, record));
        lemma_update_keeps_wf(area, i as int, record);
        assert(same_identity(old(gm).method_area.classes@[i as int], mid.method_area.classes@[i as int]));
        assert(old(gm).method_area.classes@[i as int]->Instance_0.static_field_values
            == mid.method_area.classes@[i as int]->Instance_0.static_field_values);
    }
    let out: Vec<u32> = Vec::new();
    let next: usize = frame.instruction_counter + length;
    frame.replace_top(width, &out, next);
    Ok(Step::Next)
}

/// What stands in the way of an access to the field named `name`, of
/// `width` cells, of the object that `reference` leads to.
///
/// A null reference raises `NullPointerException`. The access fails with
/// `BadReference` where the reference leads to no object or to one that is
/// no instance of a class, with `ClassNotFound` where the class of the
/// object is not loaded, with `NoSuchField` where its layout has no field of
/// that name, and with `BadReference` where the field as the reference
/// describes it does not fit in the object.
pub open spec fn instance_barrier(
    objects: Seq<ObjectView>,
    classes: Seq<Klass>,
    reference: u32,
    name: Seq<char>,
    width: int,
) -> Option<Result<Effect, VmError>> {
    if reference == 0 {
        Some(Ok(Effect::Raise(Throwable::NullPointer)))
    } else if reference >= objects.len() {
        Some(Err(VmError::BadReference))
    } else {
        match class_of_object(objects[reference as int].descriptor) {
            None => Some(Err(VmError::BadReference)),
            Some(class) => match instance_index(classes, class) {
                None => Some(Err(VmError::ClassNotFound)),
                Some(i) => match offset_in(classes[i]->Instance_0.fields@, name) {
                    None => Some(Err(VmError::NoSuchField)),
                    Some(offset) => if offset + width > objects[reference as int].cells.len() {
                        Some(Err(VmError::BadReference))
                    } else {
                        None
                    },
                },
            },
        }
    }
}

/// The offset of the field named `name` in the object that `reference`
/// leads to: that of the first field of that name in the instance-field
/// layout of the class of the object.
pub open spec fn instance_offset(
    objects: Seq<ObjectView>,
    classes: Seq<Klass>,
    reference: u32,
    name: Seq<char>,
) -> int {
    let class = class_of_object(objects[reference as int].descriptor)->0;
    let i = instance_index(classes, class)->0;
    offset_in(classes[i]->Instance_0.fields@, name)->0 as int
}

/// What `getfield`, of `length` bytes, does: it resolves the field
/// reference with index `index`, pops the object reference and pushes the
/// cells of the field.
pub open spec fn get_field_effect(
    classes: Seq<Klass>,
    objects: Seq<ObjectView>,
    key: Option<FieldKey>,
    s: FrameState,
    max_stack: int,
    length: int,
) -> Result<Effect, VmError> {
    let depth = s.stack.len() as int;
    match key {
        None => Err(VmError::Resolution),
        Some(key) => match value_cells(key.descriptor) {
            None => Err(VmError::Descriptor),
            Some(width) => if depth < 1 {
                Err(VmError::StackUnderflow)
            } else if depth - 1 + width > max_stack {
                Err(VmError::StackOverflow)
            } else {
                let reference = s.stack[depth - 1];
                match instance_barrier(objects, classes, reference, key.name, width) {
                    Some(r) => r,
                    None => {
                        let offset = instance_offset(objects, classes, reference, key.name);
                        Ok(
                            Effect::Next(
                                replaced(
                                    s,
                                    1,
                                    objects[reference as int].cells.subrange(offset, offset + width),
                                    length,
                                ),
                            ),
                        )
                    },
                }
            },
        },
    }
}

/// What `putfield`, of `length` bytes, does to its frame: it resolves the
/// field reference with index `index` and pops the value and the object
/// reference.
pub open spec fn put_field_effect(
    classes: Seq<Klass>,
    objects: Seq<ObjectView>,
    key: Option<FieldKey>,
    s: FrameState,
    length: int,
) -> Result<Effect, VmError> {
    let depth = s.stack.len() as int;
    match key {
        None => Err(VmError::Resolution),
        Some(key) => match value_cells(key.descriptor) {
            None => Err(VmError::Descriptor),
            Some(width) => if depth < 1 + width {
                Err(VmError::StackUnderflow)
            } else {
                let reference = s.stack[depth - 1 - width];
                match instance_barrier(objects, classes, reference, key.name, width) {
                    Some(r) => r,
                    None => Ok(Effect::Next(replaced(s, 1 + width, Seq::empty(), length))),
                }
            },
        },
    }
}

/// The objects after a `putfield` that is done: the cells of the field
/// have the value that was popped. No other cell and no other object
/// changes.
pub open spec fn put_field_objects(
    classes: Seq<Klass>,
    objects: Seq<ObjectView>,
    key: FieldKey,
    s: FrameState,
) -> Seq<ObjectView> {
    let depth = s.stack.len() as int;
    let width = value_cells(key.descriptor)->0;
    let reference = s.stack[depth - 1 - width];
    let offset = instance_offset(objects, classes, reference, key.name);
    objects.update(
        reference as int,
        ObjectView {
            descriptor: objects[reference as int].descriptor,
            cells: overwritten(
                objects[reference as int].cells,
                offset,
                s.stack.subrange(depth - width, depth),
            ),
        },
    )
}

/// Where a field was looked for and what was found.
enum Located {
    At(usize),
    Stop(Result<Step, VmError>),
}

/// Looks for the field named `name` in the object that `reference` leads
/// to.
fn locate(gm: &GlobalMemory, reference: u32, name: &String, width: usize) -> (r: Located)
    requires
        gm.wf(),
    ensures
        match instance_barrier(
            gm.heap.objects(),
            gm.method_area.classes@,
            reference,
            name@,
            width as int,
        ) {
            Some(Ok(Effect::Raise(t))) => r matches Located::Stop(rr) && rr == Ok::<Step, VmError>(
                Step::Raise(t),
            ),
            Some(Err(e)) => r matches Located::Stop(rr) && rr == Err::<Step, VmError>(e),
            Some(_) => false,
            None => {
                &&& r matches Located::At(offset)
                &&& offset == instance_offset(
                    gm.heap.objects(),
                    gm.method_area.classes@,
                    reference,
                    name@,
                )
                &&& reference < gm.heap.data@.len()
                &&& offset + width <= gm.heap.data@[reference as int].data@.len()
            },
        },
{
    if reference == 0 {
        return Located::Stop(Ok(Step::Raise(Throwable::NullPointer)));
    }
    let object = match gm.heap.load(reference) {
        Some(o) => o,
        None => {
            return Located::Stop(Err(VmError::BadReference));
        },
    };
    assert(gm.heap.objects()[reference as int] == object@);
    let class = match object_class(object) {
        Some(c) => c,
        None => {
            return Located::Stop(Err(VmError::BadReference));
        },
    };
    proof {
        lemma_index_of(gm.method_area.classes@, class@);
    }
    let i = match gm.method_area.find(class.as_str()) {
        Some(i) => i,
        None => {
            return Located::Stop(Err(VmError::ClassNotFound));
        },
    };
    match &gm.method_area.classes[i] {
        Klass::Instance(k) => {
            assert(k.wf());
            let offset = match k.field_offset_with_strings(&class, name) {
                Ok(o) => o,
                Err(e) => {
                    return Located::Stop(Err(e));
                },
            };
            let size = object.data.len();
            if offset > size || size - offset < width {
                return Located::Stop(Err(VmError::BadReference));
            }
            Located::At(offset)
        },
        Klass::Array(_) => Located::Stop(Err(VmError::ClassNotFound)),
    }
}

/// Runs `getfield`.
pub fn run_get_field(frame: &mut Frame, gm: &mut GlobalMemory, index: u16, length: usize) -> (r:
    Result<Step, VmError>)
    requires
        old(frame).wf(),
        old(gm).wf(),
        old(frame).instruction_counter + length <= usize::MAX,
    ensures
        final(frame).wf(),
        final(gm).wf(),
        same_but_pool(*old(gm), *final(gm), old(frame).constant_pool as int),
        step_follows(
            *old(frame),
            *final(frame),
            r,
            get_field_effect(
                old(gm).method_area.classes@,
                old(gm).heap.objects(),
                field_key(
                    old(gm).method_area.spec_constant(old(frame).constant_pool as int, index as int),
                ),
                old(frame)@,
                old(frame).max_stack as int,
                length as int,
            ),
        ),
{
    let ghost class = frame.constant_pool as int;
    let constant = match constant_of(gm, frame, index) {
        Ok(c) => c,
        Err(e) => {
            return Err(e);
        },
    };
    let (owner, name, descriptor) = match key_of(constant) {
        Some(parts) => parts,
        None => {
            return Err(VmError::Resolution);
        },
    };
    let width = match cells_of(&descriptor) {
        Ok(w) => w,
        Err(e) => {
            return Err(e);
        },
    };
    let depth = frame.operand_stack.len();
    if depth < 1 {
        return Err(VmError::StackUnderflow);
    }
    if frame.max_stack < width || depth - 1 > frame.max_stack - width {
        return Err(VmError::StackOverflow);
    }
    let reference = frame.operand_stack[depth - 1];
    proof {
        lemma_barrier_same(*old(gm), *gm, class, reference, name@, width as int);
    }
    let offset = match locate(gm, reference, &name, width) {
        Located::At(o) => o,
        Located::Stop(r) => {
            return r;
        },
    };
    let object = &gm.heap.data[reference as usize];
    assert(gm.heap.objects()[reference as int] == object@);
    let size = object.data.len();
    let mut out: Vec<u32> = Vec::new();
    out.push(object.data[offset]);
    if width == 2 {
        out.push(object.data[offset + 1]);
    }
    assert(out@ =~= object.data@.subrange(offset as int, offset + width));
    let next: usize = frame.instruction_counter + length;
    frame.replace_top(1, &out, next);
    Ok(Step::Next)
}

/// What the resolved constants of a class do not change in the way to
/// a field.
proof fn lemma_barrier_same(
    a: GlobalMemory,
    b: GlobalMemory,
    class: int,
    reference: u32,
    name: Seq<char>,
    width: int,
)
    requires
        same_but_pool(a, b, class),
    ensures
        instance_barrier(a.heap.objects(), a.method_area.classes@, reference, name, width)
            == instance_barrier(b.heap.objects(), b.method_area.classes@, reference, name, width),
        instance_barrier(a.heap.objects(), a.method_area.classes@, reference, name, width) is None
            ==> instance_offset(a.heap.objects(), a.method_area.classes@, reference, name)
            == instance_offset(b.heap.objects(), b.method_area.classes@, reference, name),
{
    lemma_same_but_pool(a, b, class);
    let x = a.method_area.classes@;
    let y = b.method_area.classes@;
    if 0 < reference < a.heap.objects().len() {
        match class_of_object(a.heap.objects()[reference as int].descriptor) {
            Some(owner) => {
                lemma_index_of(x, owner);
                match index_of(x, owner) {
                    Some(i) => {
                        assert(same_identity(x[i], y[i]));
                    },
                    None => {},
                }
            },
            None => {},
        }
    }
}

/// Runs `putfield`.
pub fn run_put_field(frame: &mut Frame, gm: &mut GlobalMemory, index: u16, length: usize) -> (r:
    Result<Step, VmError>)
    requires
        old(frame).wf(),
        old(gm).wf(),
        old(frame).instruction_counter + length <= usize::MAX,
    ensures
        final(frame).wf(),
        final(gm).wf(),
        final(gm).loading == old(gm).loading,
        old(gm).method_area.differs_in_pool(
            &final(gm).method_area,
            old(frame).constant_pool as int,
        ),
        step_follows(
            *old(frame),
            *final(frame),
            r,
            put_field_effect(
                old(gm).method_area.classes@,
                old(gm).heap.objects(),
                field_key(
                    old(gm).method_area.spec_constant(old(frame).constant_pool as int, index as int),
                ),
                old(frame)@,
                length as int,
            ),
        ),
        r == Ok::<Step, VmError>(Step::Next) ==> final(gm).heap.objects() == put_field_objects(
            old(gm).method_area.classes@,
            old(gm).heap.objects(),
            field_key(
                old(gm).method_area.spec_constant(old(frame).constant_pool as int, index as int),
            )->0,
            old(frame)@,
        ),
        r != Ok::<Step, VmError>(Step::Next) ==> final(gm).heap == old(gm).heap,
{
    let ghost class = frame.constant_pool as int;
    let constant = match constant_of(gm, frame, index) {
        Ok(c) => c,
        Err(e) => {
            return Err(e);
        },
    };
    let (owner, name, descriptor) = match key_of(constant) {
        Some(parts) => parts,
        None => {
            return Err(VmError::Resolution);
        },
    };
    let width = match cells_of(&descriptor) {
        Ok(w) => w,
        Err(e) => {
            return Err(e);
        },
    };
    let depth = frame.operand_stack.len();
    if depth < 1 + width {
        return Err(VmError::StackUnderflow);
    }
    let reference = frame.operand_stack[depth - 1 - width];
    proof {
        lemma_barrier_same(*old(gm), *gm, class, reference, name@, width as int);
    }
    let offset = match locate(gm, reference, &name, width) {
        Located::At(o) => o,
        Located::Stop(r) => {
            return r;
        },
    };
    let ghost objects = gm.heap.objects();
    let ghost values = frame.operand_stack@.subrange(depth - width, depth as int);
    let size = gm.heap.data[reference as usize].data.len();
    let object = gm.heap.load_mut(reference);
    let ghost cells = object.data@;
    if width == 2 {
        object.data[offset] = frame.operand_stack[depth - 2];
        object.data[offset + 1] = frame.operand_stack[depth - 1];
    } else {
        object.data[offset] = frame.operand_stack[depth - 1];
    }
    assert(object.data@ =~= overwritten(cells, offset as int, values));
    assert(gm.heap.objects() =~= objects.update(
        reference as int,
        ObjectView {
            descriptor: objects[reference as int].descriptor,
            cells: overwritten(cells, offset as int, values),
        },
    ));
    let out: Vec<u32> = Vec::new();
    let next: usize = frame.instruction_counter + length;
    frame.replace_top(1 + width, &out, next);
    Ok(Step::Next)
}

} // verus!
