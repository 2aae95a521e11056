//! The instructions that load constants and that test the class of an
//! object: `ldc`, `ldc_w`, `ldc2_w`, `checkcast`, `instanceof`.

use vstd::prelude::*;
use vstd::string::*;

use crate::cell::{bits_of, cell_of, from_signed, long_from_signed, split_long};
use crate::descriptor::{field_type_end, parse_field_descriptor};
use crate::error::VmError;
use crate::frame::{long_cells, Effect, Frame, FrameState, Throwable};
use crate::heap::ObjectView;
use crate::interp::{
    array_registered, await_class, class_descriptor, constant_of, descriptor_of_class,
    lemma_same_but_pool, same_but_pool, same_state, step_follows, waited, Step,
};
use crate::klass::{
    assignable_texts, index_of, lemma_assignable_texts, lemma_index_of, same_identity, Klass,
};
use crate::memory::GlobalMemory;
use crate::objects::replaced;
use crate::parse::{Constant, ConstantView};
use crate::strings::{
    java_string_from_string, string_class_name, string_failure, string_made, the_string_class,
};

verus! {

/// The mirror object of the record at position `i`.
pub open spec fn mirror_of(classes: Seq<Klass>, i: int) -> Option<u32> {
    match classes[i] {
        Klass::Instance(k) => k.java_clone,
        Klass::Array(k) => k.java_clone,
    }
}

/// What `ldc` and `ldc_w`, of `length` bytes, do: they push the constant
/// with index `index`.
///
/// An `int` or a `float` constant is pushed as its cell. A String constant
/// is pushed as the reference to a new Java string for its text, once the
/// class of strings is initialized. A Class constant is pushed as the
/// reference to the mirror of the class, once the class is initialized, or,
/// for an array class, registered. Fails with `Resolution` where the
/// constant is of another kind or cannot be resolved, with `StackOverflow`
/// where the stack is full, with `BadReference` where the class has no
/// mirror, and as making a string does.
pub open spec fn ldc_post(
    before: GlobalMemory,
    after: GlobalMemory,
    frame0: Frame,
    frame1: Frame,
    index: u16,
    length: int,
    r: Result<Step, VmError>,
) -> bool {
    let class = frame0.constant_pool as int;
    let classes = before.method_area.classes@;
    let unchanged = frame1 == frame0 && same_but_pool(before, after, class);
    let pushed = |v: u32|
        {
            &&& r == Ok::<Step, VmError>(Step::Next)
            &&& frame1@ == replaced(frame0@, 0, seq![v], length)
            &&& frame1.same_method(&frame0)
        };
    match before.method_area.spec_constant(class, index as int) {
        None => r == Err::<Step, VmError>(VmError::Resolution) && unchanged,
        Some(constant) => if !(constant is Integer || constant is Float || constant is String
            || constant is Class) {
            r == Err::<Step, VmError>(VmError::Resolution) && unchanged
        } else if frame0.operand_stack@.len() >= frame0.max_stack {
            r == Err::<Step, VmError>(VmError::StackOverflow) && unchanged
        } else {
            match constant {
                ConstantView::Integer(v) => pushed(cell_of(v as int)) && same_but_pool(
                    before,
                    after,
                    class,
                ),
                ConstantView::Float(bits) => pushed(bits) && same_but_pool(before, after, class),
                ConstantView::String(text) => if !before.method_area.is_initialized(
                    string_class_name(),
                ) {
                    frame1 == frame0 && waited(before, after, class, string_class_name(), r)
                } else {
                    match string_failure(before) {
                        Some(e) => r == Err::<Step, VmError>(e) && unchanged,
                        None => pushed(before.heap.data@.len() as u32) && string_made_after(
                            before,
                            after,
                            class,
                            text,
                        ),
                    }
                },
                ConstantView::Class(name) => if name.len() >= 1 && name[0] == '[' && index_of(
                    classes,
                    name,
                ) is None {
                    frame1 == frame0 && array_registered(before, after, class, name, r)
                } else if !before.method_area.is_initialized(name) {
                    frame1 == frame0 && waited(before, after, class, name, r)
                } else {
                    match mirror_of(classes, index_of(classes, name)->0) {
                        None => r == Err::<Step, VmError>(VmError::BadReference) && unchanged,
                        Some(mirror) => pushed(mirror) && same_but_pool(before, after, class),
                    }
                },
                _ => false,
            }
        },
    }
}

/// Whether `after` is `before` with a new string for `text`, and with the
/// constants that the class at position `class` has resolved.
pub open spec fn string_made_after(
    before: GlobalMemory,
    after: GlobalMemory,
    class: int,
    text: Seq<char>,
) -> bool {
    exists|mid: GlobalMemory| #[trigger]
        same_but_pool(before, mid, class) && string_made(mid, after, text)
}

/// Pushes one cell and moves on.
fn push_cell(frame: &mut Frame, v: u32, length: usize)
    requires
        old(frame).wf(),
        old(frame).operand_stack@.len() < old(frame).max_stack,
        old(frame).instruction_counter + length <= usize::MAX,
    ensures
        final(frame).wf(),
        final(frame)@ == replaced(old(frame)@, 0, seq![v], length as int),
        final(frame).same_method(old(frame)),
{
    let mut out: Vec<u32> = Vec::new();
    out.push(v);
    assert(out@ =~= seq![v]);
    let next: usize = frame.instruction_counter + length;
    frame.replace_top(0, &out, next);
}

/// Runs `ldc` or `ldc_w`.
pub fn run_ldc(frame: &mut Frame, gm: &mut GlobalMemory, index: u16, length: usize) -> (r: Result<
    Step,
    VmError,
>)
    requires
        old(frame).wf(),
        old(gm).wf(),
        old(frame).instruction_counter + length <= usize::MAX,
    ensures
        final(frame).wf(),
        final(gm).wf(),
        ldc_post(*old(gm), *final(gm), *old(frame), *final(frame), index, length as int, r),
        r is Ok ==> r->Ok_0.wf(),
{
    let ghost class = frame.constant_pool as int;
    let constant = match constant_of(gm, frame, index) {
        Ok(c) => c,
        Err(e) => {
            return Err(e);
        },
    };
    let ghost mid = *gm;
    proof {
        lemma_same_but_pool(*old(gm), mid, class);
    }
    let full = frame.operand_stack.len() >= frame.max_stack;
    match constant {
        Constant::Integer(v) => {
            if full {
                return Err(VmError::StackOverflow);
            }
            push_cell(frame, from_signed(v), length);
            Ok(Step::Next)
        },
        Constant::Float(bits) => {
            if full {
                return Err(VmError::StackOverflow);
            }
            push_cell(frame, bits, length);
            Ok(Step::Next)
        },
        Constant::String(text) => {
            if full {
                return Err(VmError::StackOverflow);
            }
            let owner = the_string_class();
            match await_class(gm, owner.as_str()) {
                Ok(None) => {},
                Ok(Some(step)) => {
                    return Ok(step);
                },
                Err(e) => {
                    return Err(e);
                },
            }
            proof {
                assert(string_failure(mid) == string_failure(*old(gm))) by {
                    let x = old(gm).method_area.classes@;
                    let y = mid.method_area.classes@;
                    lemma_index_of(x, string_class_name());
                    match index_of(x, string_class_name()) {
                        Some(i) => {
                            assert(same_identity(x[i], y[i]));
                        },
                        None => {},
                    }
                }
            }
            let reference = match java_string_from_string(gm, text.as_str()) {
                Ok(r) => r,
                Err(e) => {
                    return Err(e);
                },
            };
            assert(same_but_pool(*old(gm), mid, class) && string_made(mid, *gm, text@));
            push_cell(frame, reference, length);
            Ok(Step::Next)
        },
        Constant::Class(info) => {
            if full {
                return Err(VmError::StackOverflow);
            }
            let name = info.name;
            let is_array = name.as_str().unicode_len() >= 1 && name.as_str().get_char(0) == '[';
            if is_array {
                if gm.method_area.find(name.as_str()).is_none() {
                    let ghost text = name@;
                    return match gm.ensure_array(name) {
                        Ok(()) => {
                            assert(gm.method_area.classes@.drop_last() =~= mid.method_area.classes@);
                            assert(same_but_pool(*old(gm), mid, class));
                            Ok(Step::Again)
                        },
                        Err(e) => {
                            assert(same_but_pool(*old(gm), mid, class));
                            Err(e)
                        },
                    };
                }
            }
            match await_class(gm, name.as_str()) {
                Ok(None) => {},
                Ok(Some(step)) => {
                    return Ok(step);
                },
                Err(e) => {
                    return Err(e);
                },
            }
            let i = match gm.method_area.find(name.as_str()) {
                Some(i) => i,
                None => {
                    return Err(VmError::BadReference);
                },
            };
            proof {
                let x = old(gm).method_area.classes@;
                let y = mid.method_area.classes@;
                assert(same_identity(x[i as int], y[i as int]) && same_state(x[i as int], y[i as int]));
            }
            match gm.method_area.classes[i].get_java_clone() {
                Some(mirror) => {
                    push_cell(frame, mirror, length);
                    Ok(Step::Next)
                },
                None => Err(VmError::BadReference),
            }
        },
        _ => Err(VmError::Resolution),
    }
}

/// What `ldc2_w`, of `length` bytes, does: it pushes the two cells of the
/// `long` or `double` constant with index `index`, high word first.
pub open spec fn ldc2_effect(constant: Option<ConstantView>, s: FrameState, max_stack: int, length: int) -> Result<
    Effect,
    VmError,
> {
    match constant {
        Some(ConstantView::Long(v)) => if s.stack.len() + 2 > max_stack {
            Err(VmError::StackOverflow)
        } else {
            Ok(Effect::Next(replaced(s, 0, long_cells(bits_of(v as int)), length)))
        },
        Some(ConstantView::Double(bits)) => if s.stack.len() + 2 > max_stack {
            Err(VmError::StackOverflow)
        } else {
            Ok(Effect::Next(replaced(s, 0, long_cells(bits), length)))
        },
        _ => Err(VmError::Resolution),
    }
}

/// Runs `ldc2_w`.
pub fn run_ldc2(frame: &mut Frame, gm: &mut GlobalMemory, index: u16, length: usize) -> (r: Result<
    Step,
    VmError,
>)
    requires
        old(frame).wf(),
        old(gm).wf(),
        old(frame).instruction_counter + length <= usize::MAX,
    ensures
        final(frame).wf(),
        final(gm).wf(),
        same_but_pool(*old(gm), *final(gm), old(frame).constant_pool as int),
        step_follows(
            *old(frame),
            *final(frame),
            r,
            ldc2_effect(
                old(gm).method_area.spec_constant(old(frame).constant_pool as int, index as int),
                old(frame)@,
                old(frame).max_stack as int,
                length as int,
            ),
        ),
{
    let constant = match constant_of(gm, frame, index) {
        Ok(c) => c,
        Err(e) => {
            return Err(e);
        },
    };
    let bits = match constant {
        Constant::Long(v) => long_from_signed(v),
        Constant::Double(bits) => bits,
        _ => {
            return Err(VmError::Resolution);
        },
    };
    if frame.max_stack < 2 || frame.operand_stack.len() > frame.max_stack - 2 {
        return Err(VmError::StackOverflow);
    }
    let (high, low) = split_long(bits);
    let mut out: Vec<u32> = Vec::new();
    out.push(high);
    out.push(low);
    assert(out@ =~= long_cells(bits));
    let next: usize = frame.instruction_counter + length;
    frame.replace_top(0, &out, next);
    Ok(Step::Next)
}

/// Whether the object that `reference` leads to may stand where the class
/// that a Class constant names by `name` is asked for.
///
/// Fails with `BadReference` where the reference leads to no object or the
/// descriptor of the object is malformed, and with `Descriptor` where the
/// name is that of an array class and malformed.
pub open spec fn can_cast(
    classes: Seq<Klass>,
    objects: Seq<ObjectView>,
    reference: u32,
    name: Seq<char>,
) -> Result<bool, VmError> {
    if reference >= objects.len() {
        Err(VmError::BadReference)
    } else {
        let source = objects[reference as int].descriptor;
        let target = descriptor_of_class(name);
        match field_type_end(source, 0) {
            None => Err(VmError::BadReference),
            Some(end) => match field_type_end(target, 0) {
                None => Err(VmError::Descriptor),
                Some(limit) => Ok(
                    assignable_texts(classes, source.subrange(0, end), target.subrange(0, limit)),
                ),
            },
        }
    }
}

/// What `checkcast`, of `length` bytes, does: it leaves the stack as it is
/// and moves on where the reference on top is null or may stand for the
/// class with index `index`, and raises `ClassCastException` where it may
/// not.
pub open spec fn check_cast_effect(
    classes: Seq<Klass>,
    objects: Seq<ObjectView>,
    constant: Option<ConstantView>,
    s: FrameState,
    length: int,
) -> Result<Effect, VmError> {
    let depth = s.stack.len() as int;
    match constant {
        Some(ConstantView::Class(name)) => if depth < 1 {
            Err(VmError::StackUnderflow)
        } else if s.stack[depth - 1] == 0 {
            Ok(Effect::Next(replaced(s, 0, Seq::empty(), length)))
        } else {
            match can_cast(classes, objects, s.stack[depth - 1], name) {
                Err(e) => Err(e),
                Ok(true) => Ok(Effect::Next(replaced(s, 0, Seq::empty(), length))),
                Ok(false) => Ok(Effect::Raise(Throwable::ClassCast)),
            }
        },
        _ => Err(VmError::Resolution),
    }
}

/// What `instanceof`, of `length` bytes, does: it pops a reference and
/// pushes 1 where it is not null and may stand for the class with index
/// `index`, and 0 otherwise.
pub open spec fn instance_of_effect(
    classes: Seq<Klass>,
    objects: Seq<ObjectView>,
    constant: Option<ConstantView>,
    s: FrameState,
    length: int,
) -> Result<Effect, VmError> {
    let depth = s.stack.len() as int;
    match constant {
        Some(ConstantView::Class(name)) => if depth < 1 {
            Err(VmError::StackUnderflow)
        } else if s.stack[depth - 1] == 0 {
            Ok(Effect::Next(replaced(s, 1, seq![0u32], length)))
        } else {
            match can_cast(classes, objects, s.stack[depth - 1], name) {
                Err(e) => Err(e),
                Ok(fits) => Ok(
                    Effect::Next(replaced(s, 1, seq![if fits { 1u32 } else { 0u32 }], length)),
                ),
            }
        },
        _ => Err(VmError::Resolution),
    }
}

/// Tests whether an object may stand where a class is asked for.
pub fn test_cast(gm: &GlobalMemory, reference: u32, name: &String) -> (r: Result<bool, VmError>)
    requires
        gm.wf(),
    ensures
        r == can_cast(gm.method_area.classes@, gm.heap.objects(), reference, name@),
{
    let object = match gm.heap.load(reference) {
        Some(o) => o,
        None => {
            return Err(VmError::BadReference);
        },
    };
    assert(gm.heap.objects()[reference as int] == object@);
    let source = match parse_field_descriptor(&object.field_descriptor) {
        Ok(d) => d.field_type,
        Err(_) => {
            return Err(VmError::BadReference);
        },
    };
    let text = class_descriptor(name.as_str());
    let target = match parse_field_descriptor(&text) {
        Ok(d) => d.field_type,
        Err(e) => {
            return Err(e);
        },
    };
    proof {
        lemma_assignable_texts(gm.method_area.classes@, source, target);
    }
    Ok(gm.method_area.is_assignable(&source, &target))
}

/// Runs `checkcast` (`test` is false) or `instanceof` (`test` is true).
pub fn run_cast(frame: &mut Frame, gm: &mut GlobalMemory, index: u16, test: bool, length: usize) -> (r:
    Result<Step, VmError>)
    requires
        old(frame).wf(),
        old(gm).wf(),
        old(frame).instruction_counter + length <= usize::MAX,
    ensures
        final(frame).wf(),
        final(gm).wf(),
        same_but_pool(*old(gm), *final(gm), old(frame).constant_pool as int),
        step_follows(
            *old(frame),
            *final(frame),
            r,
            if test {
                instance_of_effect(
                    old(gm).method_area.classes@,
                    old(gm).heap.objects(),
                    old(gm).method_area.spec_constant(old(frame).constant_pool as int, index as int),
                    old(frame)@,
                    length as int,
                )
            } else {
                check_cast_effect(
                    old(gm).method_area.classes@,
                    old(gm).heap.objects(),
                    old(gm).method_area.spec_constant(old(frame).constant_pool as int, index as int),
                    old(frame)@,
                    length as int,
                )
            },
        ),
{
    let ghost class = frame.constant_pool as int;
    let constant = match constant_of(gm, frame, index) {
        Ok(c) => c,
        Err(e) => {
            return Err(e);
        },
    };
    let name = match constant {
        Constant::Class(info) => info.name,
        _ => {
            return Err(VmError::Resolution);
        },
    };
    let depth = frame.operand_stack.len();
    if depth < 1 {
        return Err(VmError::StackUnderflow);
    }
    let reference = frame.operand_stack[depth - 1];
    let fits = if reference == 0 {
        !test
    } else {
        proof {
            lemma_cast_same(*old(gm), *gm, class, reference, name@);
        }
        match test_cast(gm, reference, &name) {
            Ok(b) => b,
            Err(e) => {
                return Err(e);
            },
        }
    };
    let next: usize = frame.instruction_counter + length;
    let mut out: Vec<u32> = Vec::new();
    if test {
        out.push(if fits { 1 } else { 0 });
        assert(out@ =~= seq![if fits { 1u32 } else { 0u32 }]);
        frame.replace_top(1, &out, next);
        Ok(Step::Next)
    } else if fits {
        frame.replace_top(0, &out, next);
        assert(frame@.stack =~= old(frame)@.stack);
        Ok(Step::Next)
    } else {
        Ok(Step::Raise(Throwable::ClassCast))
    }
}

/// What the resolved constants of a class do not change in a cast.
proof fn lemma_cast_same(a: GlobalMemory, b: GlobalMemory, class: int, reference: u32, name: Seq<char>)
    requires
        same_but_pool(a, b, class),
    ensures
        can_cast(a.method_area.classes@, a.heap.objects(), reference, name) == can_cast(
            b.method_area.classes@,
            b.heap.objects(),
            reference,
            name,
        ),
{
    lemma_same_but_pool(a, b, class);
    crate::klass::lemma_assignable_same(
        a.method_area.classes@,
        b.method_area.classes@,
    );
}

} // verus!
